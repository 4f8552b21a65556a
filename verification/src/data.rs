//! Kinds of wallet contracts and the keys that identities are derived from.

use vstd::prelude::*;

use crate::ids::Hash32;

verus! {

/// The type of a wallet contract by its banking use case.
#[derive(Clone, Copy, PartialEq, Eq, Structural, Debug)]
pub enum ContractType {
    /// Spending with a simple procedure, such as a single signature.
    Current,
    /// Fast payments with strict limits, over payment channels.
    Instant,
    /// Spending that needs several devices, signatures or timelocks.
    Saving,
    /// Borrowing money and assets.
    Loan,
    /// Providing funds, for instance to liquidity pools.
    Staking,
    Trading,
    Storage,
    Computing,
}

/// The name a contract type is shown by.
pub open spec fn contract_type_name(t: ContractType) -> Seq<char> {
    match t {
        ContractType::Current => "current"@,
        ContractType::Instant => "instant"@,
        ContractType::Saving => "saving"@,
        ContractType::Loan => "loan"@,
        ContractType::Staking => "staking"@,
        ContractType::Trading => "trading"@,
        ContractType::Storage => "storage"@,
        ContractType::Computing => "computing"@,
    }
}

impl ContractType {
    /// The name of the contract type.
    pub fn to_string(&self) -> (r: String)
        ensures
            r@ == contract_type_name(*self),
    {
        let s = match self {
            ContractType::Current => "current",
            ContractType::Instant => "instant",
            ContractType::Saving => "saving",
            ContractType::Loan => "loan",
            ContractType::Staking => "staking",
            ContractType::Trading => "trading",
            ContractType::Storage => "storage",
            ContractType::Computing => "computing",
        };
        s.to_string()
    }
}

/// A bare multi-signature: the keys, by their text, and how many of them
/// must sign (all of them when no threshold is set).
#[derive(Clone, Debug)]
pub struct MultiSig {
    pub threshold: Option<u8>,
    pub pubkeys: Vec<String>,
    pub reorder: bool,
}

/// The number of signatures a multi-signature needs.
pub open spec fn multisig_threshold(m: MultiSig) -> nat {
    match m.threshold {
        Some(t) => t as nat,
        None => m.pubkeys@.len(),
    }
}

impl MultiSig {
    /// The number of signatures needed.
    pub fn threshold(&self) -> (r: usize)
        ensures
            r == multisig_threshold(*self),
    {
        match self.threshold {
            Some(t) => t as usize,
            None => self.pubkeys.len(),
        }
    }
}

/// The contract of a saving account.
#[derive(Clone, Debug)]
pub enum SavingContract {
    MultiSig(MultiSig),
    Covenant,
}

/// A wallet contract: the kinds of account a wallet can hold.
#[derive(Clone, Debug)]
pub enum WalletContract {
    Current { name: String, descriptor: String },
    Instant { name: String, channel_id: Hash32 },
    Saving { name: String, contract: SavingContract },
}

/// The contract type of each kind of wallet contract.
pub open spec fn wallet_contract_type(c: WalletContract) -> ContractType {
    match c {
        WalletContract::Current { .. } => ContractType::Current,
        WalletContract::Instant { .. } => ContractType::Instant,
        WalletContract::Saving { .. } => ContractType::Saving,
    }
}

impl WalletContract {
    /// The contract type of the wallet contract.
    pub fn contract_type(&self) -> (r: ContractType)
        ensures
            r == wallet_contract_type(*self),
    {
        match self {
            WalletContract::Current { .. } => ContractType::Current,
            WalletContract::Instant { .. } => ContractType::Instant,
            WalletContract::Saving { .. } => ContractType::Saving,
        }
    }
}

/// Whether a list of derivation indexes is strictly increasing, so that it
/// stands for a set.
pub open spec fn indexes_wf(v: Seq<u32>) -> bool {
    forall|i: int, j: int| 0 <= i < j < v.len() ==> v[i] < v[j]
}

/// The first hardened derivation index.
pub const HARDENED_START: u32 = 0x8000_0000;

/// A key of an identity: the scope key it is derived under, with the
/// hardened index of that scope, and the indexes used below it.
#[derive(Clone, Debug)]
pub struct IdentityKey {
    pub identity_id: Hash32,
    pub used_indexes: Vec<u32>,
    pub scope_xpub: String,
    pub scope_index: u32,
}

impl IdentityKey {
    /// The used indexes form a set and the scope index is a hardened
    /// index, counted from the first hardened one.
    pub open spec fn wf(&self) -> bool {
        &&& indexes_wf(self.used_indexes@)
        &&& self.scope_index < HARDENED_START
    }
}

/// Where a key comes from: the fingerprint of the master key and the
/// derivation path below it.
#[derive(Clone, Debug)]
pub struct KeySource {
    pub fingerprint: u32,
    pub path: Vec<u32>,
}

/// A key in a form other wallets know: the extended key, where it comes
/// from, whether a change step follows, and the indexes used below it.
#[derive(Clone, Debug)]
pub struct CompatibleKey {
    pub xpub: String,
    pub key_source: KeySource,
    pub change_path: bool,
    pub used_indexes: Vec<u32>,
}

impl CompatibleKey {
    /// The used indexes form a set.
    pub open spec fn wf(&self) -> bool {
        indexes_wf(self.used_indexes@)
    }
}

} // verus!
