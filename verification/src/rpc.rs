//! Messages between the client and the node, and how the node answers the
//! requests that its storage and cache alone can serve.

use vstd::prelude::*;

use crate::cache::{is_next_unused, unspent_wf, CacheError, FileDriver as CacheDriver};
use crate::capi::OuterCategory;
use crate::ids::{AssetId, BlockPos, ContractId, Hash32, OutPoint, Txid};
use crate::map::SortedMap;
use crate::unspent::{unspent_of, unspent_view};
use crate::text::{decimal, push_decimal, push_str_chars, string_from_chars};
use crate::sync::{amounts_sum, amounts_view, asset_outputs, AssetAmounts, SyncScan};
use crate::unspent::dedup_positive;
use crate::transfer::{
    compose_plan, plan_spec, plan_view, receiver_of, sorted_desc, spendable_coins, total_value,
    transfer_error_text, ChangeSeal, PaymentReceiver, TransferError, TransferInfo, TransferPlan,
};
use crate::unspent::bitcoin_only;
use crate::utxo::{utxos_view, Utxo, UtxoV};
use crate::model::{AddressDerivation, Contract, Operation, OutpointReveal, PaymentDirecton, Policy, PsbtWrapper};
use crate::finalize::{finalize_psbt, finalize_result};
use crate::storage::{only_changed, FileDriver as StorageDriver, StorageError};

verus! {

/// Request to create a single-signature contract.
pub struct SingleSigInfo {
    pub name: String,
    /// Text of the public key chain of the signer.
    pub pubkey_chain: String,
    pub category: OuterCategory,
}

/// Request to synchronise a contract with the blockchain.
#[derive(Clone, Copy, PartialEq, Eq, Structural, Debug)]
pub struct SyncContractRequest {
    pub contract_id: ContractId,
    pub lookup_depth: u8,
}

/// Request to rename a contract.
pub struct RenameContractRequest {
    pub contract_id: ContractId,
    pub name: String,
}

/// Request for an address of a contract, at the given derivation index or
/// the next unused one.
#[derive(Clone, Copy, PartialEq, Eq, Structural, Debug)]
pub struct NextAddressRequest {
    pub contract_id: ContractId,
    pub index: Option<u32>,
    pub legacy: bool,
    pub mark_used: bool,
}

/// A contract and one of its addresses.
pub struct ContractAddressTuple {
    pub contract_id: ContractId,
    pub address: String,
}

impl ContractAddressTuple {
    /// A contract and one of its addresses.
    pub fn new(contract_id: ContractId, address: String) -> (r: Self)
        ensures
            r.contract_id == contract_id,
            r.address == address,
    {
        ContractAddressTuple { contract_id, address }
    }
}

/// Request to record an issued invoice: for each contract, the blinded
/// outpoint it reveals, if any (with the hash concealing it).
pub struct AddInvoiceRequest {
    pub invoice: String,
    pub source_info: Vec<(ContractId, Option<(Hash32, OutpointReveal)>)>,
}

/// A signer account: its title, key and the ranges of derivation indexes it
/// has used (each range inclusive, as a start and an end).
pub struct SignerAccountInfo {
    pub title: String,
    pub key: String,
    pub used: Vec<(u32, u32)>,
}

/// An identity: its name, key and the ranges of derivation indexes known
/// (each range inclusive, as a start and an end).
pub struct IdentityInfo {
    pub name: String,
    pub key: String,
    pub known: Vec<(u32, u32)>,
}

/// Requests to the node.
pub enum Request {
    CreateSingleSig(SingleSigInfo),
    SyncContract(SyncContractRequest),
    ContractUnspent(ContractId),
    NextAddress(NextAddressRequest),
    ListAssets,
    /// Import of an asset from the Bech32 text of its genesis.
    ImportAsset(String),
    ListContracts,
    ContractOperations(ContractId),
    RenameContract(RenameContractRequest),
    DeleteContract(ContractId),
    UsedAddresses(ContractId),
    UnuseAddress(ContractAddressTuple),
    BlindUtxo(ContractId),
    ListInvoices(ContractId),
    AddInvoice(AddInvoiceRequest),
    ComposeTransfer(ComposeTransferRequest),
    /// Finalizing a signed PSBT and publishing its transaction.
    FinalizeTransfer(PsbtWrapper),
}

/// Request to compose a transfer from a contract's outputs.
pub struct ComposeTransferRequest {
    pub pay_from: ContractId,
    pub asset_value: u64,
    pub bitcoin_fee: u64,
    pub transfer_info: TransferInfo,
    pub invoice: String,
}

/// How far the node got with a request: the answer, or the outside work
/// that must be done before the answer can be given.
pub enum Step {
    /// The answer.
    Done(Result<Reply, ServerError>),
    /// The address of the contract at this derivation index must be derived
    /// (and registered as used when `mark_used`); `finish_next_address`
    /// gives the answer.
    DeriveAddress { contract_id: ContractId, index: u32, legacy: bool, mark_used: bool },
    /// The contract's scripts must be scanned, starting from this state.
    Scan { contract_id: ContractId, scan: SyncScan },
    /// The transaction of this plan must be built, with its change output
    /// (when there is bitcoin change) paying to the contract's address at
    /// `change_index`; `finish_transfer` records it.
    BuildTransfer { plan: TransferPlan, change_index: Option<u32> },
    /// This signed transaction (its consensus bytes) must be published; the
    /// answer is then `Success`.
    Publish(Vec<u8>),
    /// The request needs key derivation of a new contract or the asset node.
    Outside,
}

/// A summary of a contract.
pub struct ContractMeta {
    pub id: ContractId,
    pub name: String,
    pub chain: String,
    pub policy: Policy,
    pub created_at: i64,
}

/// Answers of the node.
pub enum Reply {
    Success,
    /// The node could not serve the request.
    Failure { code: u16, info: String },
    Contracts(Vec<ContractMeta>),
    /// Transaction ids of the operations of a contract, in increasing order.
    Operations(Vec<Hash32>),
    /// Used addresses with their derivation indexes.
    Addresses(Vec<(String, u32)>),
    /// The outpoint to receive a blinded payment at, with a fresh blinding
    /// factor.
    BlindUtxo(OutpointReveal),
    Invoices(Vec<String>),
    /// Unspent outputs of a contract by the asset they hold.
    ContractUnspent(SortedMap<AssetId, Vec<Utxo>>),
    /// A composed payment: its PSBT.
    PreparedPayment(PsbtWrapper),
    /// A derived address, with its derivation path.
    AddressDerivation(AddressDerivation),
}

/// A failure reply, with the line that reports it.
pub struct ReportedFailure {
    pub code: u16,
    pub info: String,
    pub report: String,
}

/// The report of a failure: `Error <what> #<code>:` and, on the next line,
/// `- <info>`.
pub open spec fn failure_report(msg: Seq<char>, code: u16, info: Seq<char>) -> Seq<char> {
    "Error "@ + msg + " #"@ + decimal(code as nat) + ":\n- "@ + info
}

impl Reply {
    /// Turns a failure reply into an error carrying its report, with `msg`
    /// saying what failed; any other reply is handed back.
    pub fn report_error(self, msg: &str) -> (r: Result<Reply, ReportedFailure>)
        ensures
            match self {
                Reply::Failure { code, info } => r matches Err(f) && f.code == code && f.info@ == info@
                    && f.report@ == failure_report(msg@, code, info@),
                _ => r == Ok::<Reply, ReportedFailure>(self),
            },
    {
        match self {
            Reply::Failure { code, info } => {
                let mut out: Vec<char> = Vec::new();
                push_str_chars(&mut out, "Error ");
                push_str_chars(&mut out, msg);
                push_str_chars(&mut out, " #");
                push_decimal(&mut out, code as u64);
                push_str_chars(&mut out, ":\n- ");
                push_str_chars(&mut out, info.as_str());
                proof {
                    reveal_strlit("Error ");
                    reveal_strlit(" #");
                    reveal_strlit(":\n- ");
                }
                assert(out@ =~= failure_report(msg@, code, info@));
                let report = string_from_chars(out.as_slice());
                Err(ReportedFailure { code, info, report })
            },
            other => Ok(other),
        }
    }
}

/// Why the answer to a command is not what the command expects: the node
/// failed, or it answered with another kind of reply.
pub enum ReplyError {
    Failure(ReportedFailure),
    /// A failure of the node, passed on as it came.
    NodeFailure { code: u16, info: String },
    UnexpectedApi,
}

impl Reply {
    /// The contracts of a listing, reported with `msg` when the node failed.
    pub fn into_contracts(self, msg: &str) -> (r: Result<Vec<ContractMeta>, ReplyError>)
        ensures
            match self {
                Reply::Failure { code, info } => r matches Err(ReplyError::Failure(f)) && f.code == code
                    && f.info@ == info@ && f.report@ == failure_report(msg@, code, info@),
                Reply::Contracts(v) => r matches Ok(x) && x == v,
                _ => r matches Err(ReplyError::UnexpectedApi),
            },
    {
        match self.report_error(msg) {
            Err(f) => Err(ReplyError::Failure(f)),
            Ok(Reply::Contracts(v)) => Ok(v),
            Ok(_) => Err(ReplyError::UnexpectedApi),
        }
    }

    /// The unspent outputs of a balance, reported with `msg` when the node
    /// failed.
    pub fn into_unspent(self, msg: &str) -> (r: Result<SortedMap<AssetId, Vec<Utxo>>, ReplyError>)
        ensures
            match self {
                Reply::Failure { code, info } => r matches Err(ReplyError::Failure(f)) && f.code == code
                    && f.info@ == info@ && f.report@ == failure_report(msg@, code, info@),
                Reply::ContractUnspent(m) => r matches Ok(x) && x == m,
                _ => r matches Err(ReplyError::UnexpectedApi),
            },
    {
        match self.report_error(msg) {
            Err(f) => Err(ReplyError::Failure(f)),
            Ok(Reply::ContractUnspent(m)) => Ok(m),
            Ok(_) => Err(ReplyError::UnexpectedApi),
        }
    }

    /// The used addresses of a listing, reported with `msg` when the node
    /// failed.
    pub fn into_addresses(self, msg: &str) -> (r: Result<Vec<(String, u32)>, ReplyError>)
        ensures
            match self {
                Reply::Failure { code, info } => r matches Err(ReplyError::Failure(f)) && f.code == code
                    && f.info@ == info@ && f.report@ == failure_report(msg@, code, info@),
                Reply::Addresses(v) => r matches Ok(x) && x == v,
                _ => r matches Err(ReplyError::UnexpectedApi),
            },
    {
        match self.report_error(msg) {
            Err(f) => Err(ReplyError::Failure(f)),
            Ok(Reply::Addresses(v)) => Ok(v),
            Ok(_) => Err(ReplyError::UnexpectedApi),
        }
    }

    /// The address of an address request; any other reply, a failure
    /// too, is an unexpected answer.
    pub fn into_address_derivation(self) -> (r: Result<AddressDerivation, ReplyError>)
        ensures
            match self {
                Reply::AddressDerivation(a) => r matches Ok(x) && x == a,
                _ => r matches Err(ReplyError::UnexpectedApi),
            },
    {
        match self {
            Reply::AddressDerivation(a) => Ok(a),
            _ => Err(ReplyError::UnexpectedApi),
        }
    }

    /// The outpoint of a blinded-outpoint request; any other reply, a
    /// failure too, is an unexpected answer.
    pub fn into_blind_utxo(self) -> (r: Result<OutpointReveal, ReplyError>)
        ensures
            match self {
                Reply::BlindUtxo(b) => r matches Ok(x) && x == b,
                _ => r matches Err(ReplyError::UnexpectedApi),
            },
    {
        match self {
            Reply::BlindUtxo(b) => Ok(b),
            _ => Err(ReplyError::UnexpectedApi),
        }
    }

    /// The PSBT of a composed payment; a failure of the node is passed on
    /// as it came.
    pub fn into_prepared_payment(self) -> (r: Result<PsbtWrapper, ReplyError>)
        ensures
            match self {
                Reply::PreparedPayment(p) => r matches Ok(x) && x == p,
                Reply::Failure { code, info } => r matches Err(ReplyError::NodeFailure { code: c, info: i }) && c == code
                    && i == info,
                _ => r matches Err(ReplyError::UnexpectedApi),
            },
    {
        match self {
            Reply::PreparedPayment(p) => Ok(p),
            Reply::Failure { code, info } => Err(ReplyError::NodeFailure { code, info }),
            _ => Err(ReplyError::UnexpectedApi),
        }
    }

    /// Success of a command that expects no data (renaming, deleting):
    /// any reply but a failure, which is reported with `msg`.
    pub fn into_success(self, msg: &str) -> (r: Result<(), ReplyError>)
        ensures
            match self {
                Reply::Failure { code, info } => r matches Err(ReplyError::Failure(f)) && f.code == code
                    && f.info@ == info@ && f.report@ == failure_report(msg@, code, info@),
                _ => r is Ok,
            },
    {
        match self.report_error(msg) {
            Err(f) => Err(ReplyError::Failure(f)),
            Ok(_) => Ok(()),
        }
    }
}

/// The request that records a new invoice with the contract that issued
/// it, and the blinded outpoint it pays to, if any.
pub fn invoice_add_request(invoice: String, contract_id: ContractId, reveal: Option<(Hash32, OutpointReveal)>) -> (r:
    Request)
    ensures
        r matches Request::AddInvoice(req) && req.invoice == invoice && req.source_info@ == seq![(contract_id, reveal)],
{
    let mut source_info: Vec<(ContractId, Option<(Hash32, OutpointReveal)>)> = Vec::new();
    source_info.push((contract_id, reveal));
    assert(source_info@ =~= seq![(contract_id, reveal)]);
    Request::AddInvoice(AddInvoiceRequest { invoice, source_info })
}

/// The message of a cache error.
pub open spec fn cache_error_text(e: CacheError) -> Seq<char> {
    match e {
        CacheError::Io(d) => "I/O error during storage operations. Details: "@ + d@,
        CacheError::NotFound(id) => "item with id "@ + id@ + " is not found"@,
        CacheError::StrictEncoding(d) => "Error in strict data encoding: "@ + d@
            + " Make sure that the storage is not broken."@,
        CacheError::YamlEncoding(d) => "error in YAML data encoding: "@ + d@,
        CacheError::JsonEncoding => "error in YAML data encoding"@,
        CacheError::TomlEncoding => "error in YAML data encoding"@,
        CacheError::WrongDerivation => "address is already registered with a different derivation index"@,
    }
}

/// The message of a storage error, with `id` the text form of the
/// contract or identity id it names.
pub open spec fn storage_error_text(e: StorageError, id: Seq<char>) -> Seq<char> {
    match e {
        StorageError::Io(d) => "I/O error during storage operations. Details: "@ + d@,
        StorageError::ContractExists(_) => "Wallet corresponding to the provided descriptor already exists. If you are trying to update wallet name use wallet rename command.\nDetails on existing wallet: "@
            + id,
        StorageError::ContractNotFound(_) => "Contract with the given id "@ + id + " is not found"@,
        StorageError::IdentityExists(_) => "Identity with the provided id "@ + id + " already exists"@,
        StorageError::StrictEncoding(d) => "Error in strict data encoding: "@ + d@
            + " Make sure that the storage is not broken."@,
        StorageError::YamlEncoding(d) => "error in YAML data encoding: "@ + d@,
        StorageError::JsonEncoding => "error in YAML data encoding"@,
        StorageError::TomlEncoding => "error in YAML data encoding"@,
    }
}

/// The message of an error of the node, with `id` the text form of the id
/// that a storage error names; a reported failure carries its own.
pub open spec fn server_error_text(e: ServerError, id: Seq<char>) -> Seq<char> {
    match e {
        ServerError::Storage(s) => "storage failure - "@ + storage_error_text(s, id),
        ServerError::Cache(c) => "cache failure - "@ + cache_error_text(c),
        ServerError::Failure { info, .. } => info@,
        ServerError::CacheInconsistency => "internal cache inconsistency; you need to refresh balances and try again"@,
    }
}

/// Appends the message of a cache error to `out`.
fn push_cache_error(out: &mut Vec<char>, e: &CacheError)
    ensures
        final(out)@ == old(out)@ + cache_error_text(*e),
{
    proof {
        reveal_strlit("I/O error during storage operations. Details: ");
        reveal_strlit("item with id ");
        reveal_strlit(" is not found");
        reveal_strlit("Error in strict data encoding: ");
        reveal_strlit(" Make sure that the storage is not broken.");
        reveal_strlit("error in YAML data encoding: ");
        reveal_strlit("error in YAML data encoding");
        reveal_strlit("address is already registered with a different derivation index");
    }
    let ghost start = out@;
    match e {
        CacheError::Io(d) => {
            push_str_chars(out, "I/O error during storage operations. Details: ");
            push_str_chars(out, d.as_str());
        },
        CacheError::NotFound(id) => {
            push_str_chars(out, "item with id ");
            push_str_chars(out, id.as_str());
            push_str_chars(out, " is not found");
        },
        CacheError::StrictEncoding(d) => {
            push_str_chars(out, "Error in strict data encoding: ");
            push_str_chars(out, d.as_str());
            push_str_chars(out, " Make sure that the storage is not broken.");
        },
        CacheError::YamlEncoding(d) => {
            push_str_chars(out, "error in YAML data encoding: ");
            push_str_chars(out, d.as_str());
        },
        CacheError::JsonEncoding | CacheError::TomlEncoding => {
            push_str_chars(out, "error in YAML data encoding");
        },
        CacheError::WrongDerivation => {
            push_str_chars(out, "address is already registered with a different derivation index");
        },
    }
    assert(out@ =~= start + cache_error_text(*e));
}

/// Appends the message of a storage error to `out` (see
/// `storage_error_text`).
fn push_storage_error(out: &mut Vec<char>, e: &StorageError, id: &str)
    ensures
        final(out)@ == old(out)@ + storage_error_text(*e, id@),
{
    proof {
        reveal_strlit("I/O error during storage operations. Details: ");
        reveal_strlit("Wallet corresponding to the provided descriptor already exists. If you are trying to update wallet name use wallet rename command.\nDetails on existing wallet: ");
        reveal_strlit("Contract with the given id ");
        reveal_strlit(" is not found");
        reveal_strlit("Identity with the provided id ");
        reveal_strlit(" already exists");
        reveal_strlit("Error in strict data encoding: ");
        reveal_strlit(" Make sure that the storage is not broken.");
        reveal_strlit("error in YAML data encoding: ");
        reveal_strlit("error in YAML data encoding");
    }
    let ghost start = out@;
    match e {
        StorageError::Io(d) => {
            push_str_chars(out, "I/O error during storage operations. Details: ");
            push_str_chars(out, d.as_str());
        },
        StorageError::ContractExists(_) => {
            push_str_chars(
                out,
                "Wallet corresponding to the provided descriptor already exists. If you are trying to update wallet name use wallet rename command.\nDetails on existing wallet: ",
            );
            push_str_chars(out, id);
        },
        StorageError::ContractNotFound(_) => {
            push_str_chars(out, "Contract with the given id ");
            push_str_chars(out, id);
            push_str_chars(out, " is not found");
        },
        StorageError::IdentityExists(_) => {
            push_str_chars(out, "Identity with the provided id ");
            push_str_chars(out, id);
            push_str_chars(out, " already exists");
        },
        StorageError::StrictEncoding(d) => {
            push_str_chars(out, "Error in strict data encoding: ");
            push_str_chars(out, d.as_str());
            push_str_chars(out, " Make sure that the storage is not broken.");
        },
        StorageError::YamlEncoding(d) => {
            push_str_chars(out, "error in YAML data encoding: ");
            push_str_chars(out, d.as_str());
        },
        StorageError::JsonEncoding | StorageError::TomlEncoding => {
            push_str_chars(out, "error in YAML data encoding");
        },
    }
    assert(out@ =~= start + storage_error_text(*e, id@));
}

/// The message of an error of the node (see `server_error_text`).
pub fn server_error_message(e: &ServerError, id: &str) -> (r: String)
    ensures
        r@ == server_error_text(*e, id@),
{
    proof {
        reveal_strlit("storage failure - ");
        reveal_strlit("cache failure - ");
        reveal_strlit("internal cache inconsistency; you need to refresh balances and try again");
    }
    let mut out: Vec<char> = Vec::new();
    match e {
        ServerError::Storage(s) => {
            push_str_chars(&mut out, "storage failure - ");
            push_storage_error(&mut out, s, id);
        },
        ServerError::Cache(c) => {
            push_str_chars(&mut out, "cache failure - ");
            push_cache_error(&mut out, c);
        },
        ServerError::Failure { info, .. } => {
            push_str_chars(&mut out, info.as_str());
        },
        ServerError::CacheInconsistency => {
            push_str_chars(&mut out, "internal cache inconsistency; you need to refresh balances and try again");
        },
    }
    assert(out@ =~= server_error_text(*e, id@));
    string_from_chars(out.as_slice())
}

/// The reply the node sends for how a request went: the answer, or a
/// failure. A failure the node reported keeps its code and message; any
/// other error is sent with code 1 and its message (see
/// `server_error_text`), where `id` is the text form of the id that a
/// storage error names.
pub fn reply_of(r: Result<Reply, ServerError>, id: &str) -> (reply: Reply)
    ensures
        match r {
            Ok(x) => reply == x,
            Err(ServerError::Failure { code, info }) => reply matches Reply::Failure { code: c, info: i } && c == code
                && i@ == info@,
            Err(e) => reply matches Reply::Failure { code: c, info: i } && c == 1 && i@ == server_error_text(e, id@),
        },
{
    match r {
        Ok(x) => x,
        Err(ServerError::Failure { code, info }) => Reply::Failure { code, info },
        Err(e) => {
            let info = server_error_message(&e, id);
            Reply::Failure { code: 1, info }
        },
    }
}

/// Why the node could not serve a request.
pub enum ServerError {
    Storage(StorageError),
    Cache(CacheError),
    /// A failure reported with a message.
    Failure { code: u16, info: String },
    /// The cache holds no bitcoin outputs for the contract; its balances
    /// need refreshing.
    CacheInconsistency,
}

/// Copies a string.
fn copy_string(s: &String) -> (r: String)
    ensures
        r@ == s@,
{
    s.clone()
}

/// Copies a policy.
/// Two policies of the same type over the same descriptor text.
pub open spec fn same_policy(p: Policy, q: Policy) -> bool {
    match (p, q) {
        (Policy::Current(a), Policy::Current(b)) => a@ == b@,
        (Policy::Instant(a), Policy::Instant(b)) => a@ == b@,
        (Policy::Saving(a), Policy::Saving(b)) => a@ == b@,
        _ => false,
    }
}

fn copy_policy(p: &Policy) -> (r: Policy)
    ensures
        same_policy(*p, r),
{
    match p {
        Policy::Current(d) => Policy::Current(d.clone()),
        Policy::Instant(d) => Policy::Instant(d.clone()),
        Policy::Saving(d) => Policy::Saving(d.clone()),
    }
}

/// A summary describes a contract: its id, name, chain, creation time and
/// the type of its policy.
pub open spec fn meta_of(m: ContractMeta, c: Contract) -> bool {
    &&& m.id == c.id
    &&& m.name@ == c.name@
    &&& m.chain@ == c.chain@
    &&& m.created_at == c.created_at
    &&& same_policy(m.policy, c.policy)
}

impl ContractMeta {
    /// The summary of a contract.
    pub fn from_contract(c: &Contract) -> (r: Self)
        ensures
            r.id == c.id,
            r.name@ == c.name@,
            r.chain@ == c.chain@,
            r.created_at == c.created_at,
            same_policy(r.policy, c.policy),
    {
        ContractMeta {
            id: c.id,
            name: copy_string(&c.name),
            chain: copy_string(&c.chain),
            policy: copy_policy(&c.policy),
            created_at: c.created_at,
        }
    }
}

/// The node's storage and cache.
pub struct Runtime {
    pub storage: StorageDriver,
    pub cache: CacheDriver,
}

/// The outputs a transfer may spend: those holding the paid asset, or for
/// a bitcoin payment the bitcoin outputs that hold no asset.
pub open spec fn compose_coins(cache: CacheDriver, t: ComposeTransferRequest) -> Seq<UtxoV> {
    let u = unspent_of(cache, t.pay_from);
    match t.transfer_info {
        TransferInfo::Rgb { contract_id, .. } => if u.contains_key(contract_id) {
            u[contract_id]
        } else {
            Seq::empty()
        },
        TransferInfo::Bitcoin(_) => bitcoin_only(u),
    }
}

/// The bitcoin outputs of a contract.
pub open spec fn bitcoin_outputs(cache: CacheDriver, c: ContractId) -> Seq<UtxoV> {
    let u = unspent_of(cache, c);
    if u.contains_key(Hash32::spec_zero()) {
        u[Hash32::spec_zero()]
    } else {
        Seq::empty()
    }
}

/// The amounts of a transfer request fit the node's 64-bit arithmetic: the
/// amount with the fee, the giveaway with the fee, and the totals of the
/// spendable and of the bitcoin outputs.
pub open spec fn compose_bounds(cache: CacheDriver, t: ComposeTransferRequest) -> bool {
    &&& t.asset_value + t.bitcoin_fee <= u64::MAX
    &&& total_value(compose_coins(cache, t)) <= u64::MAX
    &&& total_value(bitcoin_outputs(cache, t.pay_from)) <= u64::MAX
    &&& receiver_of(t.transfer_info) matches PaymentReceiver::AssetToDescriptor { giveaway } ==> giveaway
        + t.bitcoin_fee <= u64::MAX
}

/// The step a composed plan (as `plan_spec` gives it) leads to: a failure
/// with code 0 and the error's message, a cache inconsistency when the
/// contract has no bitcoin outputs cached (checked once the funds are known
/// to suffice), or the plan to build.
pub open spec fn compose_answer(
    plan: Result<(Seq<UtxoV>, int, int, int, Option<u64>, int, int, Option<int>, Option<(ChangeSeal, int)>), TransferError>,
    has_btc: bool,
    used: Map<Seq<char>, u32>,
    r: Step,
) -> bool {
    match plan {
        Err(TransferError::InsufficientFunds { asset }) => r matches Step::Done(Err(ServerError::Failure { code, info }))
            && code == 0 && info@ == transfer_error_text(TransferError::InsufficientFunds { asset }),
        _ => if !has_btc {
            r matches Step::Done(Err(ServerError::CacheInconsistency))
        } else {
            match plan {
                Err(e) => r matches Step::Done(Err(ServerError::Failure { code, info })) && code == 0 && info@
                    == transfer_error_text(e),
                Ok(v) => r matches Step::BuildTransfer { plan: p, change_index } && plan_view(p) == v
                    && (change_index is Some <==> v.7 is Some)
                    && (change_index matches Some(i) ==> is_next_unused(used, i)),
            }
        },
    }
}

/// The outputs a sync found, by asset, as `SyncScan::assets` gives them
/// from the scan and the amounts each found outpoint holds.
pub open spec fn sync_assets(scan: SyncScan, amounts: AssetAmounts, m: Map<AssetId, Seq<UtxoV>>) -> bool {
    let n = if scan.unspent@.len() < amounts@.len() {
        scan.unspent@.len() as int
    } else {
        amounts@.len() as int
    };
    &&& forall|a: AssetId| #[trigger]
        m.contains_key(a) ==> m[a] == asset_outputs(utxos_view(scan.unspent@), amounts_view(amounts), a, n)
    &&& m.contains_key(Hash32::spec_zero())
    &&& forall|a: AssetId|
        a != Hash32::spec_zero() ==> (#[trigger] m.contains_key(a) <==> asset_outputs(
            utxos_view(scan.unspent@),
            amounts_view(amounts),
            a,
            n,
        ).len() > 0)
}

/// The history record of a composed transfer: an outgoing payment not yet
/// published, with the plan's amounts, the change output (which follows the
/// payment outputs) and its derivation index, the fee, the giveaway (kept
/// for asset transfers only), the invoice paid, the transaction and its
/// PSBT.
pub open spec fn transfer_operation(
    op: Operation,
    t: ComposeTransferRequest,
    plan: TransferPlan,
    change_index: Option<u32>,
    txid: Txid,
    psbt: Seq<u8>,
    consignment: Option<Seq<u8>>,
    created_at: i64,
) -> bool {
    let is_rgb = t.transfer_info is Rgb;
    let btc_change: u64 = match plan.bitcoin_change {
        Some(c) => c,
        None => 0,
    };
    &&& op.txid == txid
    &&& op.created_at == created_at
    &&& op.height == 0
    &&& op.asset_id is None
    &&& op.balance_before == plan.balance_before
    &&& op.bitcoin_volume == plan.bitcoin_input_amount
    &&& op.asset_volume == if is_rgb { plan.asset_input_amount } else { plan.bitcoin_input_amount }
    &&& op.bitcoin_value == plan.bitcoin_value
    &&& op.asset_value == t.asset_value
    &&& op.tx_fee == t.bitcoin_fee
    &&& op.psbt.0@ == psbt
    &&& match (op.consignment, consignment) {
        (Some(a), Some(b)) => a@ == b,
        (None, None) => true,
        _ => false,
    }
    &&& op.notes is None
    &&& op.direction matches PaymentDirecton::Outcoming {
        published,
        asset_change,
        bitcoin_change,
        change_outputs,
        giveaway,
        paid_bitcoin_fee,
        output_derivation_indexes,
        invoice,
    } && !published && bitcoin_change == btc_change && asset_change == (if is_rgb {
        match plan.asset_change {
            Some((_, c)) => c,
            None => 0u64,
        }
    } else {
        btc_change
    }) && change_outputs@ == (if plan.bitcoin_change is Some {
        seq![plan.payment_outputs as u16]
    } else {
        Seq::<u16>::empty()
    }) && giveaway == (if is_rgb { plan.bitcoin_giveaway } else { None }) && paid_bitcoin_fee == t.bitcoin_fee && output_derivation_indexes@ == (
    match change_index {
        Some(i) => seq![i],
        None => Seq::<u32>::empty(),
    }) && invoice@ == t.invoice@
}

/// The bytes of an optional buffer.
pub open spec fn bytes_opt(b: Option<Vec<u8>>) -> Option<Seq<u8>> {
    match b {
        Some(v) => Some(v@),
        None => None,
    }
}

/// How the storage ends after a transfer is recorded: for a contract that
/// is not stored, unchanged and `ContractNotFound`; otherwise only the
/// contract's history changes, gaining the transfer's operation under its
/// transaction id, and the reply carries the PSBT.
pub open spec fn recorded(
    o: Runtime,
    n: Runtime,
    t: &ComposeTransferRequest,
    plan: &TransferPlan,
    change_index: Option<u32>,
    txid: Txid,
    psbt: PsbtWrapper,
    consignment: Option<Vec<u8>>,
    created_at: i64,
    r: Result<Reply, ServerError>,
) -> bool {
    let cv = bytes_opt(consignment);
    if !o.storage.data.contracts@.contains_key(t.pay_from) {
        r matches Err(ServerError::Storage(e)) && e == StorageError::ContractNotFound(t.pay_from)
            && n.storage.data.contracts@ == o.storage.data.contracts@
    } else {
        let oc = o.storage.data.contracts@[t.pay_from];
        let nc = n.storage.data.contracts@[t.pay_from];
        &&& r matches Ok(Reply::PreparedPayment(p)) && p.0@ == psbt.0@
        &&& only_changed(o.storage.data.contracts@, n.storage.data.contracts@, t.pay_from)
        &&& nc.id == oc.id && nc.name == oc.name
        &&& nc.data.operations@.contains_key(txid)
        &&& nc.data.operations@ == oc.data.operations@.insert(txid, nc.data.operations@[txid])
        &&& transfer_operation(nc.data.operations@[txid], *t, *plan, change_index, txid, psbt.0@, cv, created_at)
    }
}

/// `rand::thread_rng().next_u64()`: a random number, of which nothing is
/// claimed.
#[verifier::external_body]
fn random_u64() -> (r: u64) {
    rand::RngCore::next_u64(&mut rand::thread_rng())
}

/// The step that finalizing a PSBT leads to: publishing the signed
/// transaction, or a failure reply with code 0 and the error's message; a
/// PSBT that finalizing would take for granted more of than it holds (see
/// `shape_safe`) is refused with a failure reply of code 0 saying so.
pub open spec fn finalize_answer(outcome: Option<Result<Seq<u8>, Seq<char>>>, r: Step) -> bool {
    match outcome {
        Some(Ok(tx)) => r matches Step::Publish(t) && t@ == tx,
        Some(Err(m)) => r matches Step::Done(Ok(Reply::Failure { code, info })) && code == 0 && info@ == m,
        None => r matches Step::Done(Ok(Reply::Failure { code, info })) && code == 0
            && info@ == "PSBT refers to a missing previous output or an uncompressed signing key"@,
    }
}

/// The step that the outcome of finalizing a PSBT leads to (see
/// `finalize_answer`).
pub fn finalization_step(outcome: Option<Result<Vec<u8>, String>>) -> (r: Step)
    ensures
        match outcome {
            Some(Ok(v)) => finalize_answer(Some(Ok(v@)), r),
            Some(Err(m)) => finalize_answer(Some(Err(m@)), r),
            None => finalize_answer(None, r),
        },
{
    match outcome {
        Some(Ok(tx)) => Step::Publish(tx),
        Some(Err(info)) => Step::Done(Ok(Reply::Failure { code: 0, info })),
        None => {
            let info = String::from_str("PSBT refers to a missing previous output or an uncompressed signing key");
            Step::Done(Ok(Reply::Failure { code: 0, info }))
        },
    }
}

/// What the node answers to a request its storage and cache alone serve,
/// from runtime `o`, leaving runtime `n`.
pub open spec fn local_answer(o: Runtime, n: Runtime, request: Request, r: Result<Reply, ServerError>) -> bool {
    match request {
        Request::ListContracts => n == o && (r matches Ok(Reply::Contracts(v))
            && v@.len() == o.storage.data.contracts.entries().len()
            && forall|i: int| 0 <= i < v@.len() ==> meta_of(#[trigger] v@[i], o.storage.data.contracts.entries()[i].1)),
        Request::ContractOperations(id) => n == o && if o.storage.data.contracts@.contains_key(id) {
            r matches Ok(Reply::Operations(v)) && v@ == o.storage.data.contracts@[id].data.operations.key_seq()
        } else {
            r matches Err(ServerError::Storage(e)) && e == StorageError::ContractNotFound(id)
        },
        Request::RenameContract(req) => n.cache == o.cache && if o.storage.data.contracts@.contains_key(req.contract_id) {
            r matches Ok(Reply::Success) && n.storage.data.contracts@[req.contract_id].name@ == req.name@
                && n.storage.data.contracts@.dom() == o.storage.data.contracts@.dom()
        } else {
            r matches Err(ServerError::Storage(e)) && e == StorageError::ContractNotFound(req.contract_id)
        },
        Request::DeleteContract(id) => n.cache == o.cache
            && n.storage.data.contracts@ == o.storage.data.contracts@.remove(id)
            && if o.storage.data.contracts@.contains_key(id) {
                r matches Ok(Reply::Success)
            } else {
                r matches Err(ServerError::Storage(e)) && e == StorageError::ContractNotFound(id)
            },
        Request::UsedAddresses(id) => n == o && (r matches Ok(Reply::Addresses(v))
            && v@.len() == crate::cache::used_of(o.cache, id).dom().len()
            && forall|i: int| 0 <= i < v@.len() ==> crate::cache::used_of(o.cache, id).contains_key((#[trigger] v@[i]).0@)
                && crate::cache::used_of(o.cache, id)[v@[i].0@] == v@[i].1),
        Request::UnuseAddress(t) => n.storage == o.storage && (r matches Ok(Reply::Success)
            && crate::cache::used_of(n.cache, t.contract_id) == crate::cache::used_of(o.cache, t.contract_id).remove(t.address@)),
        Request::BlindUtxo(id) => n == o && {
            let ops = if o.cache.cache.descriptors@.contains_key(id) {
                o.cache.cache.descriptors@[id].utxo.key_seq()
            } else {
                Seq::empty()
            };
            if ops.len() > 0 {
                r matches Ok(Reply::BlindUtxo(b)) && b.txid == ops[0].txid && b.vout == ops[0].vout
            } else {
                r matches Err(ServerError::Failure { code, info }) && code == 0 && info@ == "No UTXO available"@
            }
        },
        Request::ListInvoices(id) => n == o && if o.storage.data.contracts@.contains_key(id) {
            r matches Ok(Reply::Invoices(v)) && v@.map_values(|s: String| s@)
                == o.storage.data.contracts@[id].data.sent_invoices@.map_values(|s: String| s@)
        } else {
            r matches Err(ServerError::Storage(e)) && e == StorageError::ContractNotFound(id)
        },
        Request::AddInvoice(req) => n.cache == o.cache && (r is Ok <==> forall|i: int|
            0 <= i < req.source_info@.len() ==> o.storage.data.contracts@.contains_key(#[trigger] req.source_info@[i].0))
            && (r is Ok ==> r matches Ok(Reply::Success))
            && (r is Ok ==> invoice_recorded(o.storage.data.contracts@, n.storage.data.contracts@, req)),
        Request::ContractUnspent(id) => n == o && (r matches Ok(Reply::ContractUnspent(m))
            && unspent_wf(m) && unspent_view(m) == unspent_of(o.cache, id)),
        _ => true,
    }
}

impl Runtime {
    pub open spec fn wf(&self) -> bool {
        self.storage.wf() && self.cache.wf()
    }

    /// Whether the storage and cache alone serve a request (the others need
    /// the blockchain, key derivation or the asset node).
    pub open spec fn is_local(request: Request) -> bool {
        !(request is CreateSingleSig || request is SyncContract
            || request is NextAddress || request is ListAssets || request is ImportAsset
            || request is ComposeTransfer || request is FinalizeTransfer)
    }

    /// Takes a request as far as the storage and cache can: the answer to
    /// the requests they alone serve (see `local_answer`); for an address,
    /// the index to derive it at; for a sync, the state the scan starts
    /// from; for a transfer, its plan or the failure to compose it; for a
    /// signed PSBT, the transaction to publish or the failure to finalize
    /// it (see `finalize_answer`). A
    /// request about a contract that is not stored fails with
    /// `ContractNotFound`. Only the local requests change the runtime.
    pub fn rpc_process(&mut self, request: Request) -> (r: Step)
        requires
            old(self).wf(),
            request matches Request::ComposeTransfer(t) ==> compose_bounds(old(self).cache, t),
        ensures
            final(self).wf(),
            Self::is_local(request) ==> (r matches Step::Done(x) && local_answer(*old(self), *final(self), request, x)),
            !Self::is_local(request) ==> *final(self) == *old(self),
            r is Outside <==> (request is CreateSingleSig || request is ListAssets || request is ImportAsset),
            match request {
                Request::NextAddress(req) => if !old(self).storage.data.contracts@.contains_key(req.contract_id) {
                    r matches Step::Done(Err(ServerError::Storage(e))) && e == StorageError::ContractNotFound(req.contract_id)
                } else {
                    r matches Step::DeriveAddress { contract_id, index, legacy, mark_used }
                        && contract_id == req.contract_id && legacy == req.legacy && mark_used == req.mark_used
                        && match req.index {
                            Some(i) => index == i,
                            None => {
                                let used = crate::cache::used_of(old(self).cache, req.contract_id);
                                &&& index <= crate::addrmap::UNHARDENED_MAX
                                &&& index > 0 ==> used.values().contains((index - 1) as u32)
                                &&& used.dom().len() == 0 ==> index == 0
                                &&& (forall|a: Seq<char>| #[trigger] used.contains_key(a) ==> used[a] < crate::addrmap::UNHARDENED_MAX)
                                    ==> !used.values().contains(index)
                                &&& (forall|a: Seq<char>| #[trigger] used.contains_key(a) ==> used[a] < crate::addrmap::UNHARDENED_MAX)
                                    ==> (forall|a: Seq<char>| #[trigger] used.contains_key(a) ==> used[a] < index)
                                &&& (exists|a: Seq<char>| #[trigger] used.contains_key(a) && used[a] == crate::addrmap::UNHARDENED_MAX)
                                    ==> index == 0
                            },
                        }
                },
                Request::SyncContract(req) => if !old(self).storage.data.contracts@.contains_key(req.contract_id) {
                    r matches Step::Done(Err(ServerError::Storage(e))) && e == StorageError::ContractNotFound(req.contract_id)
                } else {
                    r matches Step::Scan { contract_id, scan } && contract_id == req.contract_id && {
                        let used = crate::cache::used_of(old(self).cache, req.contract_id);
                        &&& scan.wf()
                        &&& scan.index_offset == 0
                        &&& scan.lookup_depth == req.lookup_depth
                        &&& scan.unspent@.len() == 0
                        &&& scan.outpoints@.dom() == Set::<OutPoint>::empty()
                        &&& scan.mine_info@ == Map::<BlockPos, Txid>::empty()
                        &&& forall|a: Seq<char>| #[trigger] used.contains_key(a) ==> used[a] <= scan.last_used
                        &&& (scan.last_used == 0 || used.values().contains(scan.last_used))
                    }
                },
                Request::ComposeTransfer(t) => if !old(self).storage.data.contracts@.contains_key(t.pay_from) {
                    r matches Step::Done(Err(ServerError::Storage(e))) && e == StorageError::ContractNotFound(t.pay_from)
                } else {
                    exists|ordered: Seq<UtxoV>| {
                        &&& sorted_desc(ordered)
                        &&& ordered.to_multiset() == compose_coins(old(self).cache, t).to_multiset()
                        &&& compose_answer(
                            plan_spec(
                                receiver_of(t.transfer_info),
                                ordered,
                                bitcoin_outputs(old(self).cache, t.pay_from),
                                t.asset_value,
                                t.bitcoin_fee,
                            ),
                            unspent_of(old(self).cache, t.pay_from).contains_key(Hash32::spec_zero()),
                            crate::cache::used_of(old(self).cache, t.pay_from),
                            r,
                        )
                    }
                },
                Request::FinalizeTransfer(p) => finalize_answer(finalize_result(p.0@), r),
                _ => true,
            },
    {
        match request {
            Request::CreateSingleSig(_) | Request::ListAssets | Request::ImportAsset(_) => Step::Outside,
            Request::FinalizeTransfer(p) => finalization_step(finalize_psbt(&p.0)),
            Request::NextAddress(req) => match self.next_address_index(&req) {
                Ok(index) => {
                    Step::DeriveAddress { contract_id: req.contract_id, index, legacy: req.legacy, mark_used: req.mark_used }
                },
                Err(e) => Step::Done(Err(e)),
            },
            Request::SyncContract(req) => {
                if let Err(e) = self.storage.contract_ref(req.contract_id) {
                    return Step::Done(Err(ServerError::Storage(e)));
                }
                let last_used = match self.cache.last_used_derivation(req.contract_id) {
                    Some(m) => m,
                    None => {
                        assert(crate::cache::used_of(self.cache, req.contract_id) =~= Map::<Seq<char>, u32>::empty());
                        0
                    },
                };
                Step::Scan { contract_id: req.contract_id, scan: SyncScan::new(last_used, req.lookup_depth) }
            },
            Request::ComposeTransfer(t) => self.compose_transfer(&t),
            _ => {
                let r = self.serve_local(request);
                match r {
                    Some(x) => Step::Done(x),
                    None => Step::Outside,
                }
            },
        }
    }

    /// Answers a sync once the scan is over: the outputs found by asset
    /// (see `SyncScan::assets`), which the cache of the contract then holds
    /// (zero-value and repeated outputs left out), with the outpoints and
    /// transaction positions found and the blockchain height given.
    pub fn finish_sync(&mut self, contract_id: ContractId, scan: SyncScan, amounts: &AssetAmounts, known_height: u32) -> (r:
        Result<Reply, ServerError>)
        requires
            old(self).wf(),
            scan.wf(),
            forall|i: int, e: int|
                0 <= i < amounts@.len() && 0 <= e < amounts@[i]@.len() ==> amounts_sum(
                    #[trigger] amounts@[i]@[e].1@,
                ) <= u64::MAX,
        ensures
            final(self).wf(),
            final(self).storage == old(self).storage,
            r matches Ok(Reply::ContractUnspent(m)) && m.wf() && sync_assets(scan, *amounts, unspent_view(m)) && {
                let n = final(self).cache.cache.descriptors@[contract_id];
                &&& final(self).cache.cache.descriptors@.contains_key(contract_id)
                &&& n.utxo@ == scan.outpoints@
                &&& n.unspent@.dom() == m@.dom()
                &&& forall|a: AssetId| #[trigger] n.unspent@.contains_key(a) ==> utxos_view(n.unspent@[a]@)
                    == dedup_positive(utxos_view(m@[a]@))
                &&& n.updated_height == known_height
                &&& final(self).cache.cache.known_height == known_height
                &&& final(self).cache.cache.mine_info@ == old(self).cache.cache.mine_info@.union_prefer_right(
                    scan.mine_info@,
                )
            },
    {
        let kept = scan.assets(amounts);
        let reply = scan.assets(amounts);
        let ghost kv = unspent_view(kept);
        proof {
            assert forall|a: AssetId| #[trigger] kept@.contains_key(a) == reply@.contains_key(a) by {
                if a != Hash32::spec_zero() {
                }
            }
            assert(kept@.dom() =~= reply@.dom());
            assert(unspent_view(reply) =~= kv);
        }
        let SyncScan { mine_info, outpoints, .. } = scan;
        self.cache.update(contract_id, mine_info, Some(known_height), outpoints, kept);
        Ok(Reply::ContractUnspent(reply))
    }

    /// Records a transfer once its transaction is built: the change address
    /// (derived at `change_index`, when the plan has bitcoin change) is
    /// registered as used, and the payment goes into the contract's history
    /// (see `transfer_operation`); the reply carries the PSBT. A change
    /// address that could not be derived fails with code 0.
    pub fn finish_transfer(
        &mut self,
        t: &ComposeTransferRequest,
        plan: &TransferPlan,
        change_index: Option<u32>,
        change_address: Option<String>,
        txid: Txid,
        psbt: PsbtWrapper,
        consignment: Option<Vec<u8>>,
        created_at: i64,
    ) -> (r: Result<Reply, ServerError>)
        requires
            old(self).wf(),
            change_index matches Some(i) ==> i <= crate::addrmap::UNHARDENED_MAX,
        ensures
            final(self).wf(),
            match change_index {
                Some(i) => match change_address {
                    None => r matches Err(ServerError::Failure { code, info }) && code == 0
                        && info@ == "Unable to derive change address"@ && *final(self) == *old(self),
                    Some(a) => {
                        let used = crate::cache::used_of(old(self).cache, t.pay_from);
                        if used.contains_key(a@) && used[a@] != i {
                            r matches Err(ServerError::Cache(e)) && e == CacheError::WrongDerivation
                                && *final(self) == *old(self)
                        } else {
                            &&& crate::cache::used_of(final(self).cache, t.pay_from) == used.insert(a@, i)
                            &&& recorded(*old(self), *final(self), t, plan, change_index, txid, psbt, consignment, created_at, r)
                        }
                    },
                },
                None => final(self).cache == old(self).cache && recorded(
                    *old(self),
                    *final(self),
                    t,
                    plan,
                    change_index,
                    txid,
                    psbt,
                    consignment,
                    created_at,
                    r,
                ),
            },
    {
        if let Some(i) = change_index {
            match change_address {
                None => {
                    let info = String::from_str("Unable to derive change address");
                    return Err(ServerError::Failure { code: 0, info });
                },
                Some(a) => {
                    if let Err(e) = self.cache.use_address_derivation(t.pay_from, a, i) {
                        return Err(ServerError::Cache(e));
                    }
                },
            }
        }
        let ghost before = *self;
        let is_rgb = t.transfer_info.is_rgb();
        let btc_change: u64 = match plan.bitcoin_change {
            Some(c) => c,
            None => 0,
        };
        let asset_change: u64 = if is_rgb {
            match plan.asset_change {
                Some((_, c)) => c,
                None => 0,
            }
        } else {
            btc_change
        };
        let mut change_outputs: Vec<u16> = Vec::new();
        if plan.bitcoin_change.is_some() {
            change_outputs.push(plan.payment_outputs as u16);
        }
        let mut output_derivation_indexes: Vec<u32> = Vec::new();
        if let Some(i) = change_index {
            output_derivation_indexes.push(i);
        }
        let ghost cv = bytes_opt(consignment);
        let op = Operation {
            direction: PaymentDirecton::Outcoming {
                published: false,
                asset_change,
                bitcoin_change: btc_change,
                change_outputs,
                giveaway: if is_rgb {
                    plan.bitcoin_giveaway
                } else {
                    None
                },
                paid_bitcoin_fee: t.bitcoin_fee,
                output_derivation_indexes,
                invoice: t.invoice.clone(),
            },
            created_at,
            height: 0,
            asset_id: None,
            balance_before: plan.balance_before,
            bitcoin_volume: plan.bitcoin_input_amount,
            asset_volume: if is_rgb {
                plan.asset_input_amount
            } else {
                plan.bitcoin_input_amount
            },
            bitcoin_value: plan.bitcoin_value,
            asset_value: t.asset_value,
            tx_fee: t.bitcoin_fee,
            txid,
            psbt: PsbtWrapper(psbt.0.clone()),
            consignment,
            notes: None,
        };
        assert(op.direction->Outcoming_change_outputs@ =~= (if plan.bitcoin_change is Some {
            seq![plan.payment_outputs as u16]
        } else {
            Seq::<u16>::empty()
        }));
        assert(op.direction->Outcoming_output_derivation_indexes@ =~= (match change_index {
            Some(i) => seq![i],
            None => Seq::<u32>::empty(),
        }));
        assert(transfer_operation(op, *t, *plan, change_index, txid, psbt.0@, cv, created_at));
        match self.storage.register_operation(t.pay_from, op) {
            Ok(()) => Ok(Reply::PreparedPayment(psbt)),
            Err(e) => Err(ServerError::Storage(e)),
        }
    }

    /// Composes the plan of a transfer (see `rpc_process`).
    fn compose_transfer(&self, t: &ComposeTransferRequest) -> (r: Step)
        requires
            self.wf(),
            compose_bounds(self.cache, *t),
        ensures
            !(r is Outside),
            if !self.storage.data.contracts@.contains_key(t.pay_from) {
                r matches Step::Done(Err(ServerError::Storage(e))) && e == StorageError::ContractNotFound(t.pay_from)
            } else {
                exists|ordered: Seq<UtxoV>| {
                    &&& sorted_desc(ordered)
                    &&& ordered.to_multiset() == compose_coins(self.cache, *t).to_multiset()
                    &&& compose_answer(
                        plan_spec(
                            receiver_of(t.transfer_info),
                            ordered,
                            bitcoin_outputs(self.cache, t.pay_from),
                            t.asset_value,
                            t.bitcoin_fee,
                        ),
                        unspent_of(self.cache, t.pay_from).contains_key(Hash32::spec_zero()),
                        crate::cache::used_of(self.cache, t.pay_from),
                        r,
                    )
                }
            },
    {
        if let Err(e) = self.storage.contract_ref(t.pay_from) {
            return Step::Done(Err(ServerError::Storage(e)));
        }
        let asset = if t.transfer_info.is_rgb() {
            Some(t.transfer_info.contract_id())
        } else {
            None
        };
        let coins = match spendable_coins(&self.cache, t.pay_from, asset) {
            Ok(v) => v,
            Err(_) => return Step::Outside,
        };
        assert(utxos_view(coins@) == compose_coins(self.cache, *t));
        let btc = match spendable_coins(&self.cache, t.pay_from, Some(Hash32::zero())) {
            Ok(v) => v,
            Err(_) => return Step::Outside,
        };
        assert(utxos_view(btc@) == bitcoin_outputs(self.cache, t.pay_from));
        let all = match self.cache.unspent(t.pay_from) {
            Ok(m) => m,
            Err(_) => return Step::Outside,
        };
        let has_btc = all.contains_key(&Hash32::zero());
        let receiver = t.transfer_info.receiver();
        match compose_plan(receiver, coins, &btc, t.asset_value, t.bitcoin_fee) {
            Err(e) => {
                let insufficient = match e {
                    TransferError::InsufficientFunds { .. } => true,
                    TransferError::CantAllocateRgbChange => false,
                };
                if !has_btc && !insufficient {
                    Step::Done(Err(ServerError::CacheInconsistency))
                } else {
                    Step::Done(Err(ServerError::Failure { code: 0, info: e.message() }))
                }
            },
            Ok(p) => {
                if has_btc {
                    let change_index = match p.bitcoin_change {
                        Some(_) => match self.cache.next_unused_derivation(t.pay_from) {
                            Ok(i) => Some(i),
                            Err(_) => return Step::Outside,
                        },
                        None => None,
                    };
                    Step::BuildTransfer { plan: p, change_index }
                } else {
                    Step::Done(Err(ServerError::CacheInconsistency))
                }
            },
        }
    }

    /// Serves a request that the storage and cache alone serve; `None`
    /// otherwise, with nothing changed. Listing, renaming and deleting
    /// contracts, their operations and invoices go to the storage; addresses
    /// and outpoints to the cache; an invoice is recorded with every contract
    /// it names, in order, stopping at the first unknown contract.
    fn serve_local(&mut self, request: Request) -> (r: Option<Result<Reply, ServerError>>)
        requires
            old(self).wf(),
        ensures
            final(self).wf(),
            r is None <==> !Self::is_local(request),
            r is None ==> *final(self) == *old(self),
            r matches Some(r) ==> local_answer(*old(self), *final(self), request, r),
    {
        Some(match request {
            Request::CreateSingleSig(_) | Request::SyncContract(_)
            | Request::NextAddress(_) | Request::ListAssets | Request::ImportAsset(_)
            | Request::ComposeTransfer(_) | Request::FinalizeTransfer(_) => {
                return None;
            },
            Request::ListContracts => {
                let all = self.storage.contracts();
                let mut v: Vec<ContractMeta> = Vec::new();
                let mut i: usize = 0;
                while i < all.len()
                    invariant
                        i <= all@.len(),
                        all@.len() == self.storage.data.contracts.entries().len(),
                        forall|k: int| 0 <= k < all@.len() ==> *#[trigger] all@[k] == self.storage.data.contracts.entries()[k].1,
                        self.storage.wf(),
                        v@.len() == i,
                        forall|k: int| 0 <= k < i ==> meta_of(#[trigger] v@[k], self.storage.data.contracts.entries()[k].1),
                    decreases all@.len() - i,
                {
                    proof {
                        self.storage.data.contracts.lemma_position(i as int);
                        assert(self.storage.data.contracts@[self.storage.data.contracts.entries()[i as int].0] == *all@[i as int]);
                    }
                    v.push(ContractMeta::from_contract(all[i]));
                    i = i + 1;
                }
                Ok(Reply::Contracts(v))
            },
            Request::ContractOperations(id) => match self.storage.contract_ref(id) {
                Ok(c) => Ok(Reply::Operations(c.data.operations.keys())),
                Err(e) => Err(ServerError::Storage(e)),
            },
            Request::RenameContract(req) => match self.storage.rename_contract(req.contract_id, req.name) {
                Ok(()) => Ok(Reply::Success),
                Err(e) => Err(ServerError::Storage(e)),
            },
            Request::DeleteContract(id) => match self.storage.delete_contract(id) {
                Ok(()) => Ok(Reply::Success),
                Err(e) => Err(ServerError::Storage(e)),
            },
            Request::UsedAddresses(id) => match self.cache.used_address_derivations(id) {
                Ok(m) => Ok(Reply::Addresses(m.pairs())),
                Err(e) => Err(ServerError::Cache(e)),
            },
            Request::UnuseAddress(t) => match self.cache.forget_address(t.contract_id, &t.address) {
                Ok(_) => Ok(Reply::Success),
                Err(e) => Err(ServerError::Cache(e)),
            },
            Request::BlindUtxo(id) => match self.cache.utxo(id) {
                Ok(v) => {
                    if v.len() > 0 {
                        Ok(Reply::BlindUtxo(OutpointReveal { blinding: random_u64(), txid: v[0].txid, vout: v[0].vout }))
                    } else {
                        let info = String::from_str("No UTXO available");
                        Err(ServerError::Failure { code: 0, info })
                    }
                },
                Err(e) => Err(ServerError::Cache(e)),
            },
            Request::ListInvoices(id) => match self.storage.contract_ref(id) {
                Ok(c) => Ok(Reply::Invoices(copy_strings(&c.data.sent_invoices))),
                Err(e) => Err(ServerError::Storage(e)),
            },
            Request::AddInvoice(req) => self.add_invoice(req),
            Request::ContractUnspent(id) => match self.cache.unspent(id) {
                Ok(m) => Ok(Reply::ContractUnspent(m)),
                Err(e) => Err(ServerError::Cache(e)),
            },
        })
    }
    /// The derivation index an address request asks for: the one given, else
    /// the next unused one of the contract; the contract must be known.
    pub fn next_address_index(&self, req: &NextAddressRequest) -> (r: Result<u32, ServerError>)
        requires
            self.wf(),
        ensures
            !self.storage.data.contracts@.contains_key(req.contract_id) ==> (r matches Err(ServerError::Storage(e))
                && e == StorageError::ContractNotFound(req.contract_id)),
            self.storage.data.contracts@.contains_key(req.contract_id) ==> match req.index {
                Some(i) => r == Ok::<u32, ServerError>(i),
                None => r matches Ok(i) && i <= crate::addrmap::UNHARDENED_MAX && (i > 0 ==> crate::cache::used_of(
                    self.cache,
                    req.contract_id,
                ).values().contains((i - 1) as u32)) && (crate::cache::used_of(self.cache, req.contract_id).dom().len() == 0 ==> i == 0)
                    && ((forall|a: Seq<char>| #[trigger] crate::cache::used_of(self.cache, req.contract_id).contains_key(a)
                        ==> crate::cache::used_of(self.cache, req.contract_id)[a] < crate::addrmap::UNHARDENED_MAX)
                        ==> !crate::cache::used_of(self.cache, req.contract_id).values().contains(i))
                    && ((forall|a: Seq<char>| #[trigger] crate::cache::used_of(self.cache, req.contract_id).contains_key(a)
                        ==> crate::cache::used_of(self.cache, req.contract_id)[a] < crate::addrmap::UNHARDENED_MAX)
                        ==> (forall|a: Seq<char>| #[trigger] crate::cache::used_of(self.cache, req.contract_id).contains_key(a)
                        ==> crate::cache::used_of(self.cache, req.contract_id)[a] < i))
                    && ((exists|a: Seq<char>| #[trigger] crate::cache::used_of(self.cache, req.contract_id).contains_key(a)
                        && crate::cache::used_of(self.cache, req.contract_id)[a] == crate::addrmap::UNHARDENED_MAX) ==> i == 0),
            },
    {
        if let Err(e) = self.storage.contract_ref(req.contract_id) {
            return Err(ServerError::Storage(e));
        }
        match req.index {
            Some(i) => Ok(i),
            None => match self.cache.next_unused_derivation(req.contract_id) {
                Ok(i) => Ok(i),
                Err(e) => Err(ServerError::Cache(e)),
            },
        }
    }

    /// Answers an address request with the derived address (none when the
    /// contract's chain gives no address), registering it as used at the
    /// last step of its derivation when asked; a failed registration is
    /// reported as a failure to derive.
    pub fn finish_next_address(&mut self, req: &NextAddressRequest, derived: Option<AddressDerivation>) -> (r:
        Result<AddressDerivation, ServerError>)
        requires
            old(self).wf(),
            derived matches Some(d) ==> d.derivation@.len() > 0 && d.derivation@.last() <= crate::addrmap::UNHARDENED_MAX,
        ensures
            final(self).wf(),
            final(self).storage == old(self).storage,
            match derived {
                None => r matches Err(ServerError::Failure { code, info }) && code == 0
                    && info@ == "Unable to derive address for the provided network/chain"@
                    && final(self).cache == old(self).cache,
                Some(d) => {
                    let used = crate::cache::used_of(old(self).cache, req.contract_id);
                    let conflict = req.mark_used && used.contains_key(d.address@) && used[d.address@] != d.derivation@.last();
                    &&& conflict ==> (r matches Err(ServerError::Failure { code, info }) && code == 0
                        && info@ == "Unable to derive address for the provided network/chain"@)
                    &&& !conflict ==> (r matches Ok(a) && a.address@ == d.address@ && a.derivation@ == d.derivation@)
                    &&& (req.mark_used && !conflict) ==> crate::cache::used_of(final(self).cache, req.contract_id)
                        == used.insert(d.address@, d.derivation@.last())
                    &&& !req.mark_used ==> final(self).cache == old(self).cache
                },
            },
    {
        let d = match derived {
            Some(d) => d,
            None => {
                return Err(ServerError::Failure {
                    code: 0,
                    info: String::from_str("Unable to derive address for the provided network/chain"),
                });
            },
        };
        if req.mark_used {
            let last = d.derivation[d.derivation.len() - 1];
            if self.cache.use_address_derivation(req.contract_id, d.address.clone(), last).is_err() {
                return Err(ServerError::Failure {
                    code: 0,
                    info: String::from_str("Unable to derive address for the provided network/chain"),
                });
            }
        }
        Ok(d)
    }

    /// The blinding factors, over all contracts, of the outpoints whose
    /// concealing hash is among `hashes`.
    pub fn revealed_outpoints(&self, hashes: &Vec<Hash32>) -> (r: Vec<OutpointReveal>)
        requires
            self.wf(),
        ensures
            forall|k: int| 0 <= k < r@.len() ==> is_revealed(self.storage.data.contracts@, hashes@, #[trigger] r@[k]),
            forall|c: ContractId, h: Hash32|
                #[trigger] has_reveal(self.storage.data.contracts@, hashes@, c, h)
                    ==> r@.contains(self.storage.data.contracts@[c].data.blinding_factors@[h]),
    {
        let contracts = &self.storage.data.contracts;
        proof {
            contracts.lemma_view_entries();
        }
        let ghost m = contracts@;
        let mut r: Vec<OutpointReveal> = Vec::new();
        let ghost mut src: Seq<(ContractId, Hash32)> = Seq::empty();
        let n = contracts.len();
        let mut i: usize = 0;
        while i < n
            invariant
                n == contracts.entries().len(),
                i <= n,
                *contracts == self.storage.data.contracts,
                m == contracts@,
                self.wf(),
                src.len() == r@.len(),
                forall|k: int| 0 <= k < r@.len() ==> #[trigger] has_reveal(m, hashes@, src[k].0, src[k].1)
                    && m[src[k].0].data.blinding_factors@[src[k].1] == r@[k],
                forall|j: int, h: Hash32| 0 <= j < i && #[trigger] hashes@.contains(h)
                    && (#[trigger] contracts.entries()[j]).1.data.blinding_factors@.contains_key(h)
                    ==> r@.contains(contracts.entries()[j].1.data.blinding_factors@[h]),
            decreases n - i,
        {
            let e = contracts.entry_at(i);
            proof {
                contracts.lemma_position(i as int);
            }
            let bf = &e.1.data.blinding_factors;
            proof {
                bf.lemma_view_entries();
            }
            let len = bf.len();
            let mut j: usize = 0;
            while j < len
                invariant
                    len == bf.entries().len(),
                    j <= len,
                    i < n,
                    n == contracts.entries().len(),
                    *e == contracts.entries()[i as int],
                    *bf == e.1.data.blinding_factors,
                    *contracts == self.storage.data.contracts,
                    m == contracts@,
                    self.wf(),
                    m.contains_key(e.0),
                    m[e.0] == e.1,
                    bf.wf(),
                    src.len() == r@.len(),
                    forall|k: int| 0 <= k < r@.len() ==> #[trigger] has_reveal(m, hashes@, src[k].0, src[k].1)
                        && m[src[k].0].data.blinding_factors@[src[k].1] == r@[k],
                    forall|jj: int, h: Hash32| 0 <= jj < i && #[trigger] hashes@.contains(h)
                        && (#[trigger] contracts.entries()[jj]).1.data.blinding_factors@.contains_key(h)
                        ==> r@.contains(contracts.entries()[jj].1.data.blinding_factors@[h]),
                    forall|q: int| 0 <= q < j && #[trigger] hashes@.contains(bf.entries()[q].0)
                        ==> r@.contains(bf.entries()[q].1),
                decreases len - j,
            {
                let be = bf.entry_at(j);
                proof {
                    bf.lemma_position(j as int);
                }
                if contains_hash(hashes, &be.0) {
                    let ghost before = r@;
                    r.push(be.1);
                    proof {
                        src = src.push((e.0, be.0));
                        assert(r@[r@.len() - 1] == be.1);
                        assert forall|k: int| 0 <= k < r@.len() implies #[trigger] has_reveal(m, hashes@, src[k].0, src[k].1)
                            && m[src[k].0].data.blinding_factors@[src[k].1] == r@[k] by {
                            if k < before.len() {
                                assert(r@[k] == before[k]);
                            }
                        }
                        assert forall|c2: int, h: Hash32| 0 <= c2 < i && #[trigger] hashes@.contains(h)
                            && (#[trigger] contracts.entries()[c2]).1.data.blinding_factors@.contains_key(h)
                            implies r@.contains(contracts.entries()[c2].1.data.blinding_factors@[h]) by {
                            let x = contracts.entries()[c2].1.data.blinding_factors@[h];
                            assert(before.contains(x));
                            let w = choose|w: int| 0 <= w < before.len() && before[w] == x;
                            assert(r@[w] == x);
                        }
                        assert forall|q: int| 0 <= q < j + 1 && #[trigger] hashes@.contains(bf.entries()[q].0)
                            implies r@.contains(bf.entries()[q].1) by {
                            if q < j {
                                let x = bf.entries()[q].1;
                                assert(before.contains(x));
                                let w = choose|w: int| 0 <= w < before.len() && before[w] == x;
                                assert(r@[w] == x);
                            } else {
                                assert(r@[r@.len() - 1] == bf.entries()[q].1);
                            }
                        }
                    }
                }
                j = j + 1;
            }
            proof {
                assert forall|jj: int, h: Hash32| 0 <= jj < i + 1 && #[trigger] hashes@.contains(h)
                    && (#[trigger] contracts.entries()[jj]).1.data.blinding_factors@.contains_key(h)
                    implies r@.contains(contracts.entries()[jj].1.data.blinding_factors@[h]) by {
                    if jj == i {
                        let q = choose|q: int| 0 <= q < bf.entries().len() && bf.entries()[q].0 == h;
                        assert(hashes@.contains(bf.entries()[q].0));
                    }
                }
            }
            i = i + 1;
        }
        proof {
            assert forall|c: ContractId, h: Hash32|
                #[trigger] has_reveal(m, hashes@, c, h)
                    implies r@.contains(m[c].data.blinding_factors@[h]) by {
                let jj = choose|jj: int| 0 <= jj < contracts.entries().len() && contracts.entries()[jj].0 == c;
                assert(contracts.entries()[jj].1.data.blinding_factors@.contains_key(h));
            }
            assert forall|k: int| 0 <= k < r@.len() implies is_revealed(self.storage.data.contracts@, hashes@, #[trigger] r@[k]) by {
                assert(has_reveal(m, hashes@, src[k].0, src[k].1));
                assert(has_reveal(self.storage.data.contracts@, hashes@, src[k].0, src[k].1));
            }
        }
        r
    }

    /// Records an invoice with every contract it names, in order, stopping
    /// at the first unknown contract.
    fn add_invoice(&mut self, req: AddInvoiceRequest) -> (r: Result<Reply, ServerError>)
        requires
            old(self).wf(),
        ensures
            final(self).wf(),
            final(self).cache == old(self).cache,
            r is Ok <==> forall|i: int|
                0 <= i < req.source_info@.len() ==> old(self).storage.data.contracts@.contains_key(#[trigger] req.source_info@[i].0),
            r is Ok ==> r matches Ok(Reply::Success),
            r is Ok ==> invoice_recorded(old(self).storage.data.contracts@, final(self).storage.data.contracts@, req),
    {
        let mut i: usize = 0;
        while i < req.source_info.len()
            invariant
                i <= req.source_info@.len(),
                self.wf(),
                self.cache == old(self).cache,
                self.storage.data.contracts@.dom() == old(self).storage.data.contracts@.dom(),
                forall|k: int| 0 <= k < i ==> old(self).storage.data.contracts@.contains_key(#[trigger] req.source_info@[k].0),
                forall|k: int| 0 <= k < i ==> self.storage.data.contracts@[#[trigger] req.source_info@[k].0].data.sent_invoices@.map_values(
                    |s: String| s@,
                ).contains(req.invoice@),
                forall|c: ContractId| #[trigger] old(self).storage.data.contracts@.contains_key(c) && !lists_contract(
                    req.source_info@.take(i as int),
                    c,
                ) ==> self.storage.data.contracts@[c] == old(self).storage.data.contracts@[c],
            decreases req.source_info@.len() - i,
        {
            let (cid, reveal) = &req.source_info[i];
            let reveals: Vec<(Hash32, OutpointReveal)> = match reveal {
                Some(x) => vec![*x],
                None => Vec::new(),
            };
            let ghost before = self.storage.data.contracts@;
            let inv = req.invoice.clone();
            match self.storage.add_invoice(*cid, inv, reveals) {
                Ok(()) => {
                    assert(self.storage.data.contracts@.dom() =~= old(self).storage.data.contracts@.dom());
                    proof {
                        let after = self.storage.data.contracts@;
                        let invs = before[*cid].data.sent_invoices@.map_values(|s: String| s@);
                        if !invs.contains(req.invoice@) {
                            assert(invs.push(req.invoice@)[invs.len() as int] == req.invoice@);
                        }
                        assert(after[*cid].data.sent_invoices@.map_values(|s: String| s@).contains(req.invoice@));
                        assert forall|k: int| 0 <= k < i + 1 implies after[#[trigger] req.source_info@[k].0].data.sent_invoices@.map_values(
                            |s: String| s@,
                        ).contains(req.invoice@) by {
                            if req.source_info@[k].0 != *cid {
                                assert(before.contains_key(req.source_info@[k].0));
                            }
                        }
                        assert forall|c: ContractId| #[trigger] old(self).storage.data.contracts@.contains_key(c) && !lists_contract(
                            req.source_info@.take(i + 1),
                            c,
                        ) implies after[c] == old(self).storage.data.contracts@[c] by {
                            assert(req.source_info@.take(i + 1)[i as int].0 == *cid);
                            if lists_contract(req.source_info@.take(i as int), c) {
                                let k = choose|k: int| 0 <= k < i && req.source_info@.take(i as int)[k].0 == c;
                                assert(req.source_info@.take(i + 1)[k].0 == c);
                            }
                        }
                    }
                },
                Err(e) => {
                    assert(!old(self).storage.data.contracts@.contains_key(req.source_info@[i as int].0));
                    return Err(ServerError::Storage(e));
                },
            }
            i = i + 1;
        }
        assert(req.source_info@.take(i as int) =~= req.source_info@);
        Ok(Reply::Success)
    }
}

/// Whether contract `c` is one of those an invoice request names.
pub open spec fn lists_contract(source: Seq<(ContractId, Option<(Hash32, OutpointReveal)>)>, c: ContractId) -> bool {
    exists|k: int| 0 <= k < source.len() && source[k].0 == c
}

/// An invoice recorded with the contracts a request names: each of them
/// lists it among its sent invoices, and the other contracts are unchanged.
pub open spec fn invoice_recorded(old: Map<ContractId, Contract>, new: Map<ContractId, Contract>, req: AddInvoiceRequest) -> bool {
    &&& new.dom() == old.dom()
    &&& forall|k: int| 0 <= k < req.source_info@.len() ==> new[#[trigger] req.source_info@[k].0].data.sent_invoices@.map_values(
        |s: String| s@,
    ).contains(req.invoice@)
    &&& forall|c: ContractId| #[trigger] old.contains_key(c) && !lists_contract(req.source_info@, c) ==> new[c] == old[c]
}

/// Contract `c` holds a blinding factor under hash `h`, one of `hashes`.
pub open spec fn has_reveal(m: Map<ContractId, Contract>, hashes: Seq<Hash32>, c: ContractId, h: Hash32) -> bool {
    &&& m.contains_key(c)
    &&& hashes.contains(h)
    &&& m[c].data.blinding_factors@.contains_key(h)
}

/// Some contract holds `x` as the blinding factor under one of `hashes`.
pub open spec fn is_revealed(m: Map<ContractId, Contract>, hashes: Seq<Hash32>, x: OutpointReveal) -> bool {
    exists|c: ContractId, h: Hash32| #[trigger] has_reveal(m, hashes, c, h) && m[c].data.blinding_factors@[h] == x
}

/// Whether `h` is in `v`.
fn contains_hash(v: &Vec<Hash32>, h: &Hash32) -> (r: bool)
    ensures
        r == v@.contains(*h),
{
    let mut i: usize = 0;
    while i < v.len()
        invariant
            i <= v@.len(),
            forall|j: int| 0 <= j < i ==> v@[j] != *h,
        decreases v@.len() - i,
    {
        if v[i] == *h {
            assert(v@[i as int] == *h);
            return true;
        }
        i = i + 1;
    }
    false
}

/// Copies a list of strings.
fn copy_strings(v: &Vec<String>) -> (r: Vec<String>)
    ensures
        r@.map_values(|s: String| s@) == v@.map_values(|s: String| s@),
{
    let mut r: Vec<String> = Vec::new();
    let mut i: usize = 0;
    while i < v.len()
        invariant
            i <= v@.len(),
            r@.len() == i,
            forall|k: int| 0 <= k < i ==> (#[trigger] r@[k])@ == v@[k]@,
        decreases v@.len() - i,
    {
        r.push(v[i].clone());
        i = i + 1;
    }
    assert(r@.map_values(|s: String| s@) =~= v@.map_values(|s: String| s@));
    r
}

} // verus!
