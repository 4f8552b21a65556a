//! Wallet contracts and their data: policies, operations, tweaked outputs,
//! invoices and blinding factors.

use vstd::prelude::*;

use crate::ids::{AssetId, ContractId, Hash32, OutPoint, Txid};
use crate::map::SortedMap;
use crate::utxo::PubKey;

verus! {

/// Type of a wallet contract by its banking use case.
#[derive(Clone, Copy, PartialEq, Eq, Structural, Debug)]
pub enum PolicyType {
    /// Spending with a simple procedure, such as a single signature.
    Current,
    /// Instant payments over payment channels.
    Instant,
    /// Spending with complex procedures: hardware devices, multiple
    /// signatures, timelocks.
    Saving,
    /// Borrowing money and assets.
    Loan,
    /// Providing funds to liquidity pools.
    Staking,
    Trading,
    Storage,
    Computing,
}

/// The lower-case name of a policy type.
pub open spec fn policy_type_name(t: PolicyType) -> Seq<char> {
    match t {
        PolicyType::Current => "current"@,
        PolicyType::Instant => "instant"@,
        PolicyType::Saving => "saving"@,
        PolicyType::Loan => "loan"@,
        PolicyType::Staking => "staking"@,
        PolicyType::Trading => "trading"@,
        PolicyType::Storage => "storage"@,
        PolicyType::Computing => "computing"@,
    }
}

impl PolicyType {
    /// The lower-case name of the type.
    pub fn to_string(&self) -> (r: String)
        ensures
            r@ == policy_type_name(*self),
    {
        match self {
            PolicyType::Current => String::from_str("current"),
            PolicyType::Instant => String::from_str("instant"),
            PolicyType::Saving => String::from_str("saving"),
            PolicyType::Loan => String::from_str("loan"),
            PolicyType::Staking => String::from_str("staking"),
            PolicyType::Trading => String::from_str("trading"),
            PolicyType::Storage => String::from_str("storage"),
            PolicyType::Computing => String::from_str("computing"),
        }
    }
}

/// The spending policy of a contract, with the text of its descriptor (for
/// a channel, of its channel id).
pub enum Policy {
    Current(String),
    Instant(String),
    Saving(String),
}

impl Policy {
    /// The type of the policy.
    pub fn policy_type(&self) -> (r: PolicyType)
        ensures
            r == match *self {
                Policy::Current(_) => PolicyType::Current,
                Policy::Instant(_) => PolicyType::Instant,
                Policy::Saving(_) => PolicyType::Saving,
            },
    {
        match self {
            Policy::Current(_) => PolicyType::Current,
            Policy::Instant(_) => PolicyType::Instant,
            Policy::Saving(_) => PolicyType::Saving,
        }
    }

    /// The text of the policy: that of its descriptor or channel.
    pub fn descriptor(&self) -> (r: &String)
        ensures
            *r == match *self {
                Policy::Current(d) => d,
                Policy::Instant(d) => d,
                Policy::Saving(d) => d,
            },
    {
        match self {
            Policy::Current(d) => d,
            Policy::Instant(d) => d,
            Policy::Saving(d) => d,
        }
    }
}

/// Internal state data of a contract.
#[derive(Clone, Copy, PartialEq, Eq, Structural, Debug)]
pub struct State {
    pub mu_sig: Hash32,
}

impl Default for State {
    fn default() -> (r: Self)
        ensures
            r.mu_sig == Hash32::spec_zero(),
    {
        State { mu_sig: Hash32::zero() }
    }
}

impl State {
    /// How the state shows itself: its data is internal.
    pub fn to_string(&self) -> (r: String)
        ensures
            r@ == "<internal state data>"@,
    {
        let s = String::from_str("<internal state data>");
        proof {
            reveal_strlit("<internal state data>");
        }
        s
    }
}

/// A partially signed transaction, held as its consensus serialization.
pub struct PsbtWrapper(pub Vec<u8>);

/// An outpoint with the blinding factor that conceals it.
#[derive(Clone, Copy, PartialEq, Eq, Structural, Debug)]
pub struct OutpointReveal {
    pub blinding: u64,
    pub txid: Txid,
    pub vout: u32,
}

/// An output whose key was tweaked by a pay-to-contract commitment.
pub struct TweakedOutput {
    pub outpoint: OutPoint,
    pub script: Vec<u8>,
    pub tweak: Hash32,
    pub pubkey: PubKey,
    pub derivation_index: u32,
}

/// The value of a tweaked output.
pub struct TweakedOutputV {
    pub outpoint: OutPoint,
    pub script: Seq<u8>,
    pub tweak: Hash32,
    pub pubkey: PubKey,
    pub derivation_index: u32,
}

impl View for TweakedOutput {
    type V = TweakedOutputV;

    open spec fn view(&self) -> TweakedOutputV {
        TweakedOutputV {
            outpoint: self.outpoint,
            script: self.script@,
            tweak: self.tweak,
            pubkey: self.pubkey,
            derivation_index: self.derivation_index,
        }
    }
}

/// Compares two byte strings.
pub fn bytes_equal(a: &Vec<u8>, b: &Vec<u8>) -> (r: bool)
    ensures
        r == (a@ == b@),
{
    if a.len() != b.len() {
        return false;
    }
    let mut i: usize = 0;
    while i < a.len()
        invariant
            i <= a@.len(),
            a@.len() == b@.len(),
            forall|j: int| 0 <= j < i ==> a@[j] == b@[j],
        decreases a@.len() - i,
    {
        if a[i] != b[i] {
            return false;
        }
        i = i + 1;
    }
    assert(a@ =~= b@);
    true
}

impl TweakedOutput {
    /// Compares two tweaked outputs field by field.
    pub fn same_as(&self, other: &TweakedOutput) -> (r: bool)
        ensures
            r == (self@ == other@),
    {
        self.outpoint == other.outpoint && bytes_equal(&self.script, &other.script) && self.tweak
            == other.tweak && self.pubkey == other.pubkey && self.derivation_index
            == other.derivation_index
    }
}

/// Whether a tweaked output equal to `t` is in `v`.
pub fn contains_tweak(v: &Vec<TweakedOutput>, t: &TweakedOutput) -> (r: bool)
    ensures
        r == v@.map_values(|x: TweakedOutput| x@).contains(t@),
{
    let ghost w = v@.map_values(|x: TweakedOutput| x@);
    let mut i: usize = 0;
    while i < v.len()
        invariant
            i <= v@.len(),
            w == v@.map_values(|x: TweakedOutput| x@),
            forall|j: int| 0 <= j < i ==> w[j] != t@,
        decreases v@.len() - i,
    {
        if v[i].same_as(t) {
            assert(w[i as int] == t@);
            return true;
        }
        i = i + 1;
    }
    false
}

/// Whether a string equal to `s` is in `v`.
pub fn contains_string(v: &Vec<String>, s: &String) -> (r: bool)
    ensures
        r == v@.map_values(|x: String| x@).contains(s@),
{
    let ghost w = v@.map_values(|x: String| x@);
    let mut i: usize = 0;
    while i < v.len()
        invariant
            i <= v@.len(),
            w == v@.map_values(|x: String| x@),
            forall|j: int| 0 <= j < i ==> w[j] != s@,
        decreases v@.len() - i,
    {
        if v[i] == *s {
            assert(w[i as int] == s@);
            return true;
        }
        i = i + 1;
    }
    false
}

/// An address of a contract and the derivation path it comes from.
pub struct AddressDerivation {
    pub address: String,
    pub derivation: Vec<u32>,
}

impl AddressDerivation {
    pub fn with(address: String, derivation: Vec<u32>) -> (r: AddressDerivation)
        ensures
            r.address == address,
            r.derivation == derivation,
    {
        AddressDerivation { address, derivation }
    }
}

/// Direction of a payment.
pub enum PaymentDirecton {
    Incoming { giveaway: Option<u64>, input_derivation_indexes: Vec<u32> },
    Outcoming {
        published: bool,
        asset_change: u64,
        bitcoin_change: u64,
        change_outputs: Vec<u16>,
        giveaway: Option<u64>,
        paid_bitcoin_fee: u64,
        output_derivation_indexes: Vec<u32>,
        invoice: String,
    },
}

/// A payment made or received by a contract.
pub struct Operation {
    pub direction: PaymentDirecton,
    /// Creation time, in seconds since the Unix epoch.
    pub created_at: i64,
    pub height: i64,
    pub asset_id: Option<AssetId>,
    pub balance_before: u64,
    pub bitcoin_volume: u64,
    pub asset_volume: u64,
    pub bitcoin_value: u64,
    pub asset_value: u64,
    pub tx_fee: u64,
    /// Id of the payment transaction, which identifies the operation.
    pub txid: Txid,
    pub psbt: PsbtWrapper,
    /// The consignment of an asset transfer, serialized.
    pub consignment: Option<Vec<u8>>,
    pub notes: Option<String>,
}

/// What a contract records besides its policy.
pub struct ContractData {
    pub state: State,
    /// Blinding factors by the hash of the outpoint they conceal.
    pub blinding_factors: SortedMap<Hash32, OutpointReveal>,
    /// Invoices issued, each once, in the order they were issued.
    pub sent_invoices: Vec<String>,
    /// Tweaked outputs, each once.
    pub p2c_tweaks: Vec<TweakedOutput>,
    /// Operations by transaction id.
    pub operations: SortedMap<Txid, Operation>,
}

impl ContractData {
    pub open spec fn wf(&self) -> bool {
        &&& self.blinding_factors.wf()
        &&& self.operations.wf()
        &&& self.sent_invoices@.map_values(|s: String| s@).no_duplicates()
        &&& self.p2c_tweaks@.map_values(|t: TweakedOutput| t@).no_duplicates()
    }

    /// Data of a new contract: nothing recorded.
    pub fn new() -> (r: Self)
        ensures
            r.wf(),
            r.state.mu_sig == Hash32::spec_zero(),
            r.blinding_factors@ == Map::<Hash32, OutpointReveal>::empty(),
            r.sent_invoices@.len() == 0,
            r.p2c_tweaks@.len() == 0,
            r.operations@ == Map::<Txid, Operation>::empty(),
    {
        let r = ContractData {
            state: State::default(),
            blinding_factors: SortedMap::new(),
            sent_invoices: Vec::new(),
            p2c_tweaks: Vec::new(),
            operations: SortedMap::new(),
        };
        assert(r.sent_invoices@.map_values(|s: String| s@) =~= Seq::<Seq<char>>::empty());
        assert(r.p2c_tweaks@.map_values(|t: TweakedOutput| t@) =~= Seq::<TweakedOutputV>::empty());
        r
    }
}

/// A wallet contract.
pub struct Contract {
    /// Identifies the contract: a commitment to its policy.
    pub id: ContractId,
    pub name: String,
    /// Name of the chain the contract is on.
    pub chain: String,
    pub policy: Policy,
    /// Creation time, in seconds since the Unix epoch.
    pub created_at: i64,
    pub data: ContractData,
}

impl Contract {
    pub open spec fn wf(&self) -> bool {
        self.data.wf()
    }

    /// A new contract with no data; `id` is the commitment to `policy` and
    /// `created_at` the current time, both computed by the caller.
    pub fn with(policy: Policy, name: String, chain: String, id: ContractId, created_at: i64) -> (r:
        Self)
        ensures
            r.wf(),
            r.id == id,
            r.name@ == name@,
            r.chain@ == chain@,
            r.policy == policy,
            r.created_at == created_at,
            r.data.blinding_factors@ == Map::<Hash32, OutpointReveal>::empty(),
            r.data.sent_invoices@.len() == 0,
            r.data.p2c_tweaks@.len() == 0,
            r.data.operations@ == Map::<Txid, Operation>::empty(),
    {
        Contract { id, name, chain, policy, created_at, data: ContractData::new() }
    }

    /// The type of the contract's policy.
    pub fn policy_type(&self) -> (r: PolicyType)
        ensures
            r == match self.policy {
                Policy::Current(_) => PolicyType::Current,
                Policy::Instant(_) => PolicyType::Instant,
                Policy::Saving(_) => PolicyType::Saving,
            },
    {
        self.policy.policy_type()
    }

    /// Records a tweaked output, unless it is recorded already.
    pub fn add_p2c_tweak(&mut self, tweak: TweakedOutput)
        requires
            old(self).wf(),
        ensures
            final(self).wf(),
            final(self).id == old(self).id,
            final(self).name == old(self).name,
            final(self).data.operations == old(self).data.operations,
            final(self).data.sent_invoices == old(self).data.sent_invoices,
            final(self).data.blinding_factors == old(self).data.blinding_factors,
            final(self).data.p2c_tweaks@.map_values(|t: TweakedOutput| t@).to_set() == old(
                self,
            ).data.p2c_tweaks@.map_values(|t: TweakedOutput| t@).to_set().insert(tweak@),
    {
        let ghost old_view = self.data.p2c_tweaks@.map_values(|t: TweakedOutput| t@);
        if contains_tweak(&self.data.p2c_tweaks, &tweak) {
            assert(old_view.to_set().insert(tweak@) =~= old_view.to_set());
            return;
        }
        let ghost tv = tweak@;
        self.data.p2c_tweaks.push(tweak);
        proof {
            let nv = self.data.p2c_tweaks@.map_values(|t: TweakedOutput| t@);
            assert(nv =~= old_view.push(tv));
            assert forall|x: TweakedOutputV| nv.to_set().contains(x) <==> old_view.to_set().insert(tv).contains(x) by {
                if nv.contains(x) && x != tv {
                    let k = choose|k: int| 0 <= k < nv.len() && nv[k] == x;
                    assert(old_view[k] == x);
                }
                if old_view.contains(x) {
                    let k = choose|k: int| 0 <= k < old_view.len() && old_view[k] == x;
                    assert(nv[k] == x);
                }
                if x == tv {
                    assert(nv[nv.len() - 1] == x);
                }
            }
            assert(nv.to_set() =~= old_view.to_set().insert(tv));
        }
    }

    /// Records an operation under its transaction id, replacing one recorded
    /// there before.
    pub fn add_operation(&mut self, operation: Operation)
        requires
            old(self).wf(),
        ensures
            final(self).wf(),
            final(self).id == old(self).id,
            final(self).name == old(self).name,
            final(self).data.p2c_tweaks == old(self).data.p2c_tweaks,
            final(self).data.sent_invoices == old(self).data.sent_invoices,
            final(self).data.blinding_factors == old(self).data.blinding_factors,
            final(self).data.operations@ == old(self).data.operations@.insert(operation.txid, operation),
    {
        let txid = operation.txid;
        self.data.operations.insert(txid, operation);
    }

    /// The recorded operations, by increasing transaction id.
    pub fn history(&self) -> (r: Vec<&Operation>)
        requires
            self.wf(),
        ensures
            r@.len() == self.data.operations.entries().len(),
            forall|i: int| 0 <= i < r@.len() ==> *#[trigger] r@[i] == self.data.operations.entries()[i].1,
    {
        self.data.operations.values()
    }

    /// Records an issued invoice, unless it is recorded already.
    pub fn add_invoice(&mut self, invoice: String)
        requires
            old(self).wf(),
        ensures
            final(self).wf(),
            final(self).id == old(self).id,
            final(self).name == old(self).name,
            final(self).data.p2c_tweaks == old(self).data.p2c_tweaks,
            final(self).data.operations == old(self).data.operations,
            final(self).data.blinding_factors == old(self).data.blinding_factors,
            final(self).data.sent_invoices@.map_values(|s: String| s@) == if old(
                self,
            ).data.sent_invoices@.map_values(|s: String| s@).contains(invoice@) {
                old(self).data.sent_invoices@.map_values(|s: String| s@)
            } else {
                old(self).data.sent_invoices@.map_values(|s: String| s@).push(invoice@)
            },
    {
        let ghost old_view = self.data.sent_invoices@.map_values(|s: String| s@);
        if contains_string(&self.data.sent_invoices, &invoice) {
            return;
        }
        let ghost iv = invoice@;
        self.data.sent_invoices.push(invoice);
        proof {
            assert(self.data.sent_invoices@.map_values(|s: String| s@) =~= old_view.push(iv));
        }
    }

    /// Records the blinding factor of an outpoint under `hash`, the hash
    /// concealing it.
    pub fn add_blinding(&mut self, hash: Hash32, outpoint_reveal: OutpointReveal)
        requires
            old(self).wf(),
        ensures
            final(self).wf(),
            final(self).id == old(self).id,
            final(self).name == old(self).name,
            final(self).data.p2c_tweaks == old(self).data.p2c_tweaks,
            final(self).data.operations == old(self).data.operations,
            final(self).data.sent_invoices == old(self).data.sent_invoices,
            final(self).data.blinding_factors@ == old(self).data.blinding_factors@.insert(
                hash,
                outpoint_reveal,
            ),
    {
        self.data.blinding_factors.insert(hash, outpoint_reveal);
    }
}

} // verus!
