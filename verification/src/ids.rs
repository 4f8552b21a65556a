//! Identifiers: 256-bit hashes (contract ids, asset ids, transaction ids),
//! transaction outpoints and block positions.

use vstd::prelude::*;

use crate::map::KeyOrd;

verus! {

/// A 256-bit hash, held as its big-endian halves: the first 16 bytes in
/// `hi`, the last 16 in `lo`. Comparing `(hi, lo)` as integers orders hashes
/// as their byte strings are ordered.
#[derive(Clone, Copy, PartialEq, Eq, Structural, Debug)]
pub struct Hash32 {
    pub hi: u128,
    pub lo: u128,
}

impl Hash32 {
    /// The all-zero hash (the default identifier; as an asset id it stands
    /// for bitcoin itself).
    pub open spec fn spec_zero() -> Hash32 {
        Hash32 { hi: 0, lo: 0 }
    }

    pub fn zero() -> (r: Hash32)
        ensures
            r == Hash32::spec_zero(),
    {
        Hash32 { hi: 0, lo: 0 }
    }

    pub fn is_zero(&self) -> (r: bool)
        ensures
            r == (*self == Hash32::spec_zero()),
    {
        self.hi == 0 && self.lo == 0
    }
}

impl KeyOrd for Hash32 {
    open spec fn key_lt(self, other: Self) -> bool {
        self.hi < other.hi || (self.hi == other.hi && self.lo < other.lo)
    }

    proof fn lemma_lt_irreflexive(a: Self) {
    }

    proof fn lemma_lt_transitive(a: Self, b: Self, c: Self) {
    }

    proof fn lemma_lt_total(a: Self, b: Self) {
    }

    fn key_less(&self, other: &Self) -> (r: bool) {
        self.hi < other.hi || (self.hi == other.hi && self.lo < other.lo)
    }

    fn key_same(&self, other: &Self) -> (r: bool) {
        self.hi == other.hi && self.lo == other.lo
    }
}

/// Identifier of a wallet contract.
pub type ContractId = Hash32;

/// Identifier of an RGB asset; the zero hash stands for bitcoin.
pub type AssetId = Hash32;

/// Bitcoin transaction id.
pub type Txid = Hash32;

/// A transaction output: transaction id and output number.
#[derive(Clone, Copy, PartialEq, Eq, Structural, Debug)]
pub struct OutPoint {
    pub txid: Txid,
    pub vout: u32,
}

impl KeyOrd for OutPoint {
    open spec fn key_lt(self, other: Self) -> bool {
        self.txid.key_lt(other.txid) || (self.txid == other.txid && self.vout < other.vout)
    }

    proof fn lemma_lt_irreflexive(a: Self) {
    }

    proof fn lemma_lt_transitive(a: Self, b: Self, c: Self) {
    }

    proof fn lemma_lt_total(a: Self, b: Self) {
    }

    fn key_less(&self, other: &Self) -> (r: bool) {
        self.txid.key_less(&other.txid) || (self.txid.key_same(&other.txid) && self.vout
            < other.vout)
    }

    fn key_same(&self, other: &Self) -> (r: bool) {
        self.txid.key_same(&other.txid) && self.vout == other.vout
    }
}

/// Position of a transaction in the blockchain: block height and the offset
/// of the transaction within the block.
#[derive(Clone, Copy, PartialEq, Eq, Structural, Debug)]
pub struct BlockPos {
    pub height: u32,
    pub offset: u16,
}

impl KeyOrd for BlockPos {
    open spec fn key_lt(self, other: Self) -> bool {
        self.height < other.height || (self.height == other.height && self.offset < other.offset)
    }

    proof fn lemma_lt_irreflexive(a: Self) {
    }

    proof fn lemma_lt_transitive(a: Self, b: Self, c: Self) {
    }

    proof fn lemma_lt_total(a: Self, b: Self) {
    }

    fn key_less(&self, other: &Self) -> (r: bool) {
        self.height < other.height || (self.height == other.height && self.offset < other.offset)
    }

    fn key_same(&self, other: &Self) -> (r: bool) {
        self.height == other.height && self.offset == other.offset
    }
}

} // verus!
