//! The command-line client: its commands, the requests each command sends,
//! the decisions around invoices and payments, and the text of its listings.

use vstd::prelude::*;

use crate::capi::{InvoiceType, OuterCategory};
use crate::ids::{AssetId, ContractId, Hash32};
use crate::rpc::{NextAddressRequest, RenameContractRequest, Request, SingleSigInfo, SyncContractRequest};
use crate::text::{chars_of, decimal, push_chars, push_str_chars, string_from_chars, u64_to_decimal};
use crate::utxo::Utxo;

verus! {

/// Depth of the address scan when none is given.
pub const LOOKUP_DEPTH_DEFAULT: u8 = 20;

/// How a listing is printed.
#[derive(Clone, Copy, PartialEq, Eq, Structural, Debug)]
pub enum Formatting {
    /// Only data identifier strings, one per line.
    Id,
    /// A single entry per line in a compact, type-specific form.
    Compact,
    /// Tab-separated fields.
    Tab,
    /// Comma-separated fields.
    Csv,
    /// Formatted YAML.
    Yaml,
    /// JSON.
    Json,
}

/// The name of a formatting.
pub open spec fn formatting_name(f: Formatting) -> Seq<char> {
    match f {
        Formatting::Id => "id"@,
        Formatting::Compact => "compact"@,
        Formatting::Tab => "tab"@,
        Formatting::Csv => "csv"@,
        Formatting::Yaml => "yaml"@,
        Formatting::Json => "json"@,
    }
}

impl Formatting {
    pub fn to_string(&self) -> (r: String)
        ensures
            r@ == formatting_name(*self),
    {
        match self {
            Formatting::Id => String::from_str("id"),
            Formatting::Compact => String::from_str("compact"),
            Formatting::Tab => String::from_str("tab"),
            Formatting::Csv => String::from_str("csv"),
            Formatting::Yaml => String::from_str("yaml"),
            Formatting::Json => String::from_str("json"),
        }
    }

    /// The formatting with the given name.
    pub fn from_str(s: &str) -> (r: Result<Formatting, String>)
        ensures
            match r {
                Ok(f) => formatting_name(f) == s@,
                Err(e) => (forall|f: Formatting| formatting_name(f) != s@) && e@ == "Unknown format name"@,
            },
    {
        let all = [Formatting::Id, Formatting::Compact, Formatting::Tab, Formatting::Csv, Formatting::Yaml, Formatting::Json];
        let v = chars_of(s);
        let mut i: usize = 0;
        while i < 6
            invariant
                i <= 6,
                v@ == s@,
                all@ == seq![Formatting::Id, Formatting::Compact, Formatting::Tab, Formatting::Csv, Formatting::Yaml, Formatting::Json],
                forall|j: int| 0 <= j < i ==> formatting_name(#[trigger] all@[j]) != s@,
            decreases 6 - i,
        {
            let f = all[i];
            let name = chars_of(f.to_string().as_str());
            if chars_equal(&name, &v) {
                return Ok(f);
            }
            i = i + 1;
        }
        proof {
            assert forall|f: Formatting| formatting_name(f) != s@ by {
                match f {
                    Formatting::Id => assert(formatting_name(all@[0]) != s@),
                    Formatting::Compact => assert(formatting_name(all@[1]) != s@),
                    Formatting::Tab => assert(formatting_name(all@[2]) != s@),
                    Formatting::Csv => assert(formatting_name(all@[3]) != s@),
                    Formatting::Yaml => assert(formatting_name(all@[4]) != s@),
                    Formatting::Json => assert(formatting_name(all@[5]) != s@),
                }
            }
        }
        Err(String::from_str("Unknown format name"))
    }
}

/// Whether two character lists are equal.
pub fn chars_equal(a: &Vec<char>, b: &Vec<char>) -> (r: bool)
    ensures
        r == (a@ == b@),
{
    if a.len() != b.len() {
        return false;
    }
    let mut i: usize = 0;
    while i < a.len()
        invariant
            i <= a@.len(),
            a@.len() == b@.len(),
            forall|j: int| 0 <= j < i ==> a@[j] == b@[j],
        decreases a@.len() - i,
    {
        if a[i] != b[i] {
            return false;
        }
        i = i + 1;
    }
    assert(a@ =~= b@);
    true
}

/// How a PSBT is written out.
#[derive(Clone, Copy, PartialEq, Eq, Structural, Debug)]
pub enum PsbtFormat {
    Binary,
    Hexadecimal,
    Base64,
}

/// Options of the commands that scan a wallet.
pub struct WalletOpts {
    pub wallet_id: ContractId,
    /// Whether to re-scan the address space with the Electrum server.
    pub rescan: bool,
    /// How many addresses to scan at least after the last used one
    /// (`LOOKUP_DEPTH_DEFAULT` when not given).
    pub lookup_depth: Option<u8>,
    pub format: Formatting,
}

/// Creation of a wallet.
pub enum WalletCreateCommand {
    /// A single-signature wallet of the given public key chain.
    SingleSig { name: String, pubkey_chain: String },
}

/// Wallet commands.
pub enum WalletCommand {
    List { format: Formatting },
    /// Creates a wallet; the flags choose the descriptor category.
    Create { subcommand: WalletCreateCommand, bare: bool, legacy: bool, segwit: bool, taproot: bool },
    Rename { wallet_id: ContractId, new_name: String },
    Delete { wallet_id: ContractId },
    Balance { opts: WalletOpts },
}

/// Address commands.
pub enum AddressCommand {
    ListUsed { scan_opts: WalletOpts, limit: Option<usize>, format: Formatting },
    Create { wallet_id: ContractId, index: Option<u32>, mark_used: bool, no: u8, legacy: bool, format: Formatting },
    MarkUsed { index: Option<u32>, legacy: bool, unmark: bool },
}

/// Asset commands.
pub enum AssetCommand {
    List { format: Formatting },
    /// Imports an asset from the Bech32 text of its genesis.
    Import { genesis: String },
}

/// Commands of the client.
#[allow(inconsistent_fields)]
pub enum Command {
    Wallet { subcommand: WalletCommand },
    Address { subcommand: AddressCommand },
    Asset { subcommand: AssetCommand },
}

/// The descriptor category the creation flags choose: bare, legacy
/// (hashed) or taproot when set, segwit otherwise.
pub open spec fn category_spec(bare: bool, legacy: bool, segwit: bool, taproot: bool) -> OuterCategory {
    if bare {
        OuterCategory::Bare
    } else if legacy {
        OuterCategory::Hashed
    } else if taproot {
        OuterCategory::Taproot
    } else {
        OuterCategory::SegWit
    }
}

pub fn descriptor_category(bare: bool, legacy: bool, segwit: bool, taproot: bool) -> (r: OuterCategory)
    ensures
        r == category_spec(bare, legacy, segwit, taproot),
{
    if bare {
        OuterCategory::Bare
    } else if legacy {
        OuterCategory::Hashed
    } else if taproot {
        OuterCategory::Taproot
    } else {
        OuterCategory::SegWit
    }
}

/// The lookup depth asked for, or the default one.
pub open spec fn lookup_depth_of(d: Option<u8>) -> u8 {
    match d {
        Some(x) => x,
        None => LOOKUP_DEPTH_DEFAULT,
    }
}

/// The lookup depth asked for, or the default one.
pub fn lookup_depth_or_default(d: Option<u8>) -> (r: u8)
    ensures
        r == lookup_depth_of(d),
{
    match d {
        Some(x) => x,
        None => LOOKUP_DEPTH_DEFAULT,
    }
}

/// The request for a wallet's balance: a sync when a re-scan is asked
/// for, the cached outputs otherwise.
pub fn contract_balance(contract_id: ContractId, rescan: bool, lookup_depth: u8) -> (r: Request)
    ensures
        rescan ==> r == Request::SyncContract(SyncContractRequest { contract_id, lookup_depth }),
        !rescan ==> r == Request::ContractUnspent(contract_id),
{
    if rescan {
        Request::SyncContract(SyncContractRequest { contract_id, lookup_depth })
    } else {
        Request::ContractUnspent(contract_id)
    }
}

/// The requests for a wallet's used addresses: a sync first when a re-scan
/// is asked for.
pub fn address_list(contract_id: ContractId, rescan: bool, lookup_depth: u8) -> (r: Vec<Request>)
    ensures
        rescan ==> r@ == seq![
            Request::SyncContract(SyncContractRequest { contract_id, lookup_depth }),
            Request::UsedAddresses(contract_id),
        ],
        !rescan ==> r@ == seq![Request::UsedAddresses(contract_id)],
{
    let mut v: Vec<Request> = Vec::new();
    if rescan {
        v.push(Request::SyncContract(SyncContractRequest { contract_id, lookup_depth }));
    }
    v.push(Request::UsedAddresses(contract_id));
    assert(rescan ==> v@ =~= seq![
        Request::SyncContract(SyncContractRequest { contract_id, lookup_depth }),
        Request::UsedAddresses(contract_id),
    ]);
    assert(!rescan ==> v@ =~= seq![Request::UsedAddresses(contract_id)]);
    v
}

impl WalletCommand {
    /// The request the command sends.
    pub fn request(self) -> (r: Request)
        ensures
            match self {
                WalletCommand::List { .. } => r is ListContracts,
                WalletCommand::Create { subcommand: WalletCreateCommand::SingleSig { name, pubkey_chain }, bare, legacy, segwit, taproot } =>
                    r matches Request::CreateSingleSig(info) && info.name@ == name@ && info.pubkey_chain@ == pubkey_chain@
                        && info.category == category_spec(bare, legacy, segwit, taproot),
                WalletCommand::Rename { wallet_id, new_name } =>
                    r matches Request::RenameContract(req) && req.contract_id == wallet_id && req.name@ == new_name@,
                WalletCommand::Delete { wallet_id } => r == Request::DeleteContract(wallet_id),
                WalletCommand::Balance { opts } => r == (if opts.rescan {
                    Request::SyncContract(SyncContractRequest { contract_id: opts.wallet_id, lookup_depth: lookup_depth_of(opts.lookup_depth) })
                } else {
                    Request::ContractUnspent(opts.wallet_id)
                }),
            },
    {
        match self {
            WalletCommand::List { .. } => Request::ListContracts,
            WalletCommand::Create { subcommand: WalletCreateCommand::SingleSig { name, pubkey_chain }, bare, legacy, segwit, taproot } => {
                let category = descriptor_category(bare, legacy, segwit, taproot);
                Request::CreateSingleSig(SingleSigInfo { name, pubkey_chain, category })
            },
            WalletCommand::Rename { wallet_id, new_name } => Request::RenameContract(
                RenameContractRequest { contract_id: wallet_id, name: new_name },
            ),
            WalletCommand::Delete { wallet_id } => Request::DeleteContract(wallet_id),
            WalletCommand::Balance { opts } => contract_balance(
                opts.wallet_id,
                opts.rescan,
                lookup_depth_or_default(opts.lookup_depth),
            ),
        }
    }
}

impl AddressCommand {
    /// The requests the command sends (marking an address as used is not
    /// offered).
    pub fn requests(self) -> (r: Vec<Request>)
        requires
            !(self is MarkUsed),
        ensures
            match self {
                AddressCommand::ListUsed { scan_opts, .. } => if scan_opts.rescan {
                    r@ == seq![
                        Request::SyncContract(SyncContractRequest { contract_id: scan_opts.wallet_id, lookup_depth: lookup_depth_of(scan_opts.lookup_depth) }),
                        Request::UsedAddresses(scan_opts.wallet_id),
                    ]
                } else {
                    r@ == seq![Request::UsedAddresses(scan_opts.wallet_id)]
                },
                AddressCommand::Create { wallet_id, index, mark_used, legacy, .. } => r@ == seq![
                    Request::NextAddress(NextAddressRequest { contract_id: wallet_id, index, legacy, mark_used }),
                ],
                AddressCommand::MarkUsed { .. } => false,
            },
    {
        match self {
            AddressCommand::ListUsed { scan_opts, .. } => address_list(
                scan_opts.wallet_id,
                scan_opts.rescan,
                lookup_depth_or_default(scan_opts.lookup_depth),
            ),
            AddressCommand::Create { wallet_id, index, mark_used, legacy, .. } => {
                let mut v: Vec<Request> = Vec::new();
                v.push(Request::NextAddress(NextAddressRequest { contract_id: wallet_id, index, legacy, mark_used }));
                assert(v@ =~= seq![Request::NextAddress(NextAddressRequest { contract_id: wallet_id, index, legacy, mark_used })]);
                v
            },
            AddressCommand::MarkUsed { .. } => Vec::new(),
        }
    }
}

impl AssetCommand {
    /// The request the command sends.
    pub fn request(self) -> (r: Request)
        ensures
            match self {
                AssetCommand::List { .. } => r is ListAssets,
                AssetCommand::Import { genesis } => r matches Request::ImportAsset(g) && g@ == genesis@,
            },
    {
        match self {
            AssetCommand::List { .. } => Request::ListAssets,
            AssetCommand::Import { genesis } => Request::ImportAsset(genesis),
        }
    }
}

// --- Invoices and payments

/// The kind of invoice the `invoice create` flags ask for.
pub fn invoice_kind(descriptor: bool, psbt: bool) -> (r: InvoiceType)
    ensures
        r == (if descriptor {
            InvoiceType::Descriptor
        } else if psbt {
            InvoiceType::Psbt
        } else {
            InvoiceType::AddressUtxo
        }),
{
    if descriptor {
        InvoiceType::Descriptor
    } else if psbt {
        InvoiceType::Psbt
    } else {
        InvoiceType::AddressUtxo
    }
}

/// How a prepared PSBT is written: as asked, else in binary to a file and in
/// Base64 to the terminal.
pub fn psbt_output_format(to_file: bool, format: Option<PsbtFormat>) -> (r: PsbtFormat)
    ensures
        r == match format {
            Some(f) => f,
            None => if to_file {
                PsbtFormat::Binary
            } else {
                PsbtFormat::Base64
            },
        },
{
    match format {
        Some(f) => f,
        None => if to_file {
            PsbtFormat::Binary
        } else {
            PsbtFormat::Base64
        },
    }
}

/// The request that gives an invoice its beneficiary: a blinded outpoint
/// for an asset, a new address (marked used unless asked not to) for
/// bitcoin. Other invoice kinds are not offered.
pub fn invoice_beneficiary_request(
    category: InvoiceType,
    contract_id: ContractId,
    asset_id: Option<AssetId>,
    unmark: bool,
    legacy: bool,
) -> (r: Request)
    requires
        category == InvoiceType::AddressUtxo,
    ensures
        asset_id is Some ==> r == Request::BlindUtxo(contract_id),
        asset_id is None ==> r == Request::NextAddress(
            NextAddressRequest { contract_id, index: None, legacy, mark_used: !unmark },
        ),
{
    match asset_id {
        Some(_) => Request::BlindUtxo(contract_id),
        None => Request::NextAddress(NextAddressRequest { contract_id, index: None, legacy, mark_used: !unmark }),
    }
}

/// Who an invoice pays.
#[derive(Clone, Copy, PartialEq, Eq, Structural, Debug)]
pub enum Beneficiary {
    Address,
    BlindUtxo(Hash32),
    Descriptor,
    Other,
}

/// How the asset of a bitcoin invoice relates to the chain paid on.
#[derive(Clone, Copy, PartialEq, Eq, Structural, Debug)]
pub enum AssetClass {
    Native,
    Rgb,
    InvalidNativeChain,
    Other,
}

/// What a payment transfers.
#[derive(Clone, Copy, PartialEq, Eq, Structural, Debug)]
pub enum TransferKind {
    /// An asset, to a blinded outpoint.
    Asset { asset_id: AssetId, blind: Hash32 },
    /// Bitcoin, to the invoice's address.
    Bitcoin,
}

/// The failure messages of paying an invoice.
pub open spec fn pay_failure(m: int) -> Seq<char> {
    if m == 0 {
        "Malformed invoice: RGB assets can't be paid to an address"@
    } else if m == 1 {
        "Malformed invoice: bitcoins can't be paid to an existing UTXO"@
    } else if m == 2 {
        "Current network does not match invoice network"@
    } else if m == 3 {
        "Unsupported asset type"@
    } else {
        "Amount must be specified for invoices which does not provide default amount value"@
    }
}

/// What paying an invoice transfers and how much: an asset invoice pays to
/// a blinded outpoint, a bitcoin invoice to an address on its own chain;
/// the amount is the invoice's, else the one given.
pub fn plan_invoice_payment(
    rgb_asset: Option<AssetId>,
    beneficiary: Beneficiary,
    asset_class: AssetClass,
    invoice_amount: Option<u64>,
    amount: Option<u64>,
) -> (r: Result<(TransferKind, u64), String>)
    requires
        rgb_asset is Some ==> beneficiary is Address || beneficiary is BlindUtxo,
        rgb_asset is None ==> beneficiary is Address || beneficiary is BlindUtxo,
        rgb_asset is None && beneficiary is Address ==> !(asset_class is Rgb),
    ensures
        ({
            let kind: Result<TransferKind, int> = match rgb_asset {
                Some(a) => match beneficiary {
                    Beneficiary::BlindUtxo(h) => Ok(TransferKind::Asset { asset_id: a, blind: h }),
                    _ => Err(0),
                },
                None => match beneficiary {
                    Beneficiary::BlindUtxo(_) => Err(1),
                    _ => match asset_class {
                        AssetClass::Native => Ok(TransferKind::Bitcoin),
                        AssetClass::InvalidNativeChain => Err(2),
                        _ => Err(3),
                    },
                },
            };
            let value: Option<u64> = match invoice_amount {
                Some(v) => Some(v),
                None => amount,
            };
            match kind {
                Err(m) => r matches Err(e) && e@ == pay_failure(m),
                Ok(k) => match value {
                    Some(v) => r == Ok::<(TransferKind, u64), String>((k, v)),
                    None => r matches Err(e) && e@ == pay_failure(4),
                },
            }
        }),
{
    let kind = match rgb_asset {
        Some(a) => match beneficiary {
            Beneficiary::BlindUtxo(h) => TransferKind::Asset { asset_id: a, blind: h },
            _ => return Err(String::from_str("Malformed invoice: RGB assets can't be paid to an address")),
        },
        None => match beneficiary {
            Beneficiary::BlindUtxo(_) => {
                return Err(String::from_str("Malformed invoice: bitcoins can't be paid to an existing UTXO"));
            },
            _ => match asset_class {
                AssetClass::Native => TransferKind::Bitcoin,
                AssetClass::InvalidNativeChain => {
                    return Err(String::from_str("Current network does not match invoice network"));
                },
                _ => return Err(String::from_str("Unsupported asset type")),
            },
        },
    };
    let value = match invoice_amount {
        Some(v) => v,
        None => match amount {
            Some(v) => v,
            None => {
                return Err(String::from_str(
                    "Amount must be specified for invoices which does not provide default amount value",
                ));
            },
        },
    };
    Ok((kind, value))
}

// --- Listings

/// Items printed in a listing.
pub trait OutputCompact {
    /// The compact, one-line form of the item.
    fn output_compact(&self) -> String;
}

impl OutputCompact for Utxo {
    fn output_compact(&self) -> (r: String)
        ensures
            r@ == crate::parse::utxo_text(self@),
    {
        self.to_string()
    }
}

impl OutputCompact for u32 {
    fn output_compact(&self) -> (r: String)
        ensures
            r@ == decimal(*self as nat),
    {
        u64_to_decimal(*self as u64)
    }
}

/// Texts joined by a separator.
pub open spec fn join(parts: Seq<Seq<char>>, sep: char) -> Seq<char>
    decreases parts.len(),
{
    if parts.len() == 0 {
        Seq::empty()
    } else if parts.len() == 1 {
        parts[0]
    } else {
        join(parts.drop_last(), sep) + seq![sep] + parts.last()
    }
}

/// Joins texts by a separator.
pub fn join_fields(parts: &Vec<String>, sep: char) -> (r: String)
    ensures
        r@ == join(parts@.map_values(|s: String| s@), sep),
{
    let ghost p = parts@.map_values(|s: String| s@);
    let mut out: Vec<char> = Vec::new();
    let mut i: usize = 0;
    while i < parts.len()
        invariant
            i <= parts@.len(),
            p == parts@.map_values(|s: String| s@),
            out@ == join(p.take(i as int), sep),
        decreases parts@.len() - i,
    {
        if i > 0 {
            out.push(sep);
        }
        let v = chars_of(parts[i].as_str());
        push_chars(&mut out, &v, 0, v.len());
        proof {
            assert(v@.subrange(0, v@.len() as int) =~= v@);
            assert(p.take(i + 1).drop_last() =~= p.take(i as int));
            assert(p.take(i + 1).last() == parts@[i as int]@);
            if i == 0 {
                assert(p.take(1)[0] == parts@[0]@);
            }
        }
        assert(out@ =~= join(p.take(i + 1), sep));
        i = i + 1;
    }
    assert(p.take(i as int) =~= p);
    string_from_chars(out.as_slice())
}

/// One line of a listing of an item: its id, compact form or fields, as the
/// formatting asks; none for YAML and JSON, which describe the whole item.
pub fn output_line(format: Formatting, id: &String, compact: &String, fields: &Vec<String>) -> (r: Option<String>)
    ensures
        match format {
            Formatting::Id => r matches Some(l) && l@ == id@,
            Formatting::Compact => r matches Some(l) && l@ == compact@,
            Formatting::Tab => r matches Some(l) && l@ == join(fields@.map_values(|s: String| s@), '\t'),
            Formatting::Csv => r matches Some(l) && l@ == join(fields@.map_values(|s: String| s@), ','),
            _ => r is None,
        },
{
    match format {
        Formatting::Id => Some(id.clone()),
        Formatting::Compact => Some(compact.clone()),
        Formatting::Tab => Some(join_fields(fields, '\t')),
        Formatting::Csv => Some(join_fields(fields, ',')),
        _ => None,
    }
}

/// The header line of a listing: the headers joined by tabs or commas; none
/// for the other formattings.
pub fn header_line(format: Formatting, headers: &Vec<String>) -> (r: Option<String>)
    ensures
        match format {
            Formatting::Tab => r matches Some(l) && l@ == join(headers@.map_values(|s: String| s@), '\t'),
            Formatting::Csv => r matches Some(l) && l@ == join(headers@.map_values(|s: String| s@), ','),
            _ => r is None,
        },
{
    match format {
        Formatting::Tab => Some(join_fields(headers, '\t')),
        Formatting::Csv => Some(join_fields(headers, ',')),
        _ => None,
    }
}

/// The fields of an unspent output in a listing: value, block height, block
/// offset, output number and derivation index.
pub fn utxo_fields(u: &Utxo) -> (r: Vec<String>)
    ensures
        r@.map_values(|s: String| s@) == seq![
            decimal(u.value as nat),
            decimal(u.height as nat),
            decimal(u.offset as nat),
            decimal(u.vout as nat),
            decimal(u.derivation_index as nat),
        ],
{
    let mut r: Vec<String> = Vec::new();
    r.push(u64_to_decimal(u.value));
    r.push(u64_to_decimal(u.height as u64));
    r.push(u64_to_decimal(u.offset as u64));
    r.push(u64_to_decimal(u.vout as u64));
    r.push(u64_to_decimal(u.derivation_index as u64));
    assert(r@.map_values(|s: String| s@) =~= seq![
        decimal(u.value as nat),
        decimal(u.height as nat),
        decimal(u.offset as nat),
        decimal(u.vout as nat),
        decimal(u.derivation_index as nat),
    ]);
    r
}

} // verus!
