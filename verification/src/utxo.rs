//! Unspent transaction outputs as the wallet cache records them.

use vstd::prelude::*;

use crate::ids::{Hash32, OutPoint, Txid};

verus! {

/// A compressed secp256k1 public key: the parity prefix byte and the
/// 32-byte x coordinate.
#[derive(Clone, Copy, PartialEq, Eq, Structural, Debug)]
pub struct PubKey {
    pub prefix: u8,
    pub x: Hash32,
}

/// An unspent output holding some amount of an asset.
#[derive(Debug)]
pub struct Utxo {
    /// Amount (in native atomic asset amount) of unspent asset
    pub value: u64,
    /// Height of the block where transaction is mined; 0 for the mempool
    pub height: u32,
    /// Offset of the transaction within the block
    pub offset: u16,
    /// Outpoint transaction id
    pub txid: Txid,
    /// Transaction output containing asset
    pub vout: u16,
    /// Index used by the descriptor in deriving the output script
    pub derivation_index: u32,
    /// Tweak (if any) applied to the public key, and the tweaked key
    pub tweak: Option<(Hash32, PubKey)>,
    /// Address controlling the output
    pub address: Option<String>,
}

/// The value of a `Utxo`, with the address as a character string.
pub struct UtxoV {
    pub value: u64,
    pub height: u32,
    pub offset: u16,
    pub txid: Txid,
    pub vout: u16,
    pub derivation_index: u32,
    pub tweak: Option<(Hash32, PubKey)>,
    pub address: Option<Seq<char>>,
}

impl UtxoV {
    pub open spec fn outpoint(self) -> OutPoint {
        OutPoint { txid: self.txid, vout: self.vout as u32 }
    }
}

pub open spec fn opt_string_view(s: Option<String>) -> Option<Seq<char>> {
    match s {
        Some(a) => Some(a@),
        None => None,
    }
}

impl View for Utxo {
    type V = UtxoV;

    open spec fn view(&self) -> UtxoV {
        UtxoV {
            value: self.value,
            height: self.height,
            offset: self.offset,
            txid: self.txid,
            vout: self.vout,
            derivation_index: self.derivation_index,
            tweak: self.tweak,
            address: opt_string_view(self.address),
        }
    }
}

/// The views of a sequence of outputs.
pub open spec fn utxos_view(s: Seq<Utxo>) -> Seq<UtxoV> {
    s.map_values(|u: Utxo| u@)
}

pub fn clone_opt_string(s: &Option<String>) -> (r: Option<String>)
    ensures
        r == *s,
{
    match s {
        Some(a) => Some(a.clone()),
        None => None,
    }
}

impl Clone for Utxo {
    fn clone(&self) -> (r: Self)
        ensures
            r == *self,
    {
        Utxo {
            value: self.value,
            height: self.height,
            offset: self.offset,
            txid: self.txid,
            vout: self.vout,
            derivation_index: self.derivation_index,
            tweak: self.tweak,
            address: clone_opt_string(&self.address),
        }
    }
}

impl Utxo {
    /// The transaction output this record stands for.
    pub fn outpoint(&self) -> (r: OutPoint)
        ensures
            r == self@.outpoint(),
    {
        OutPoint { txid: self.txid, vout: self.vout as u32 }
    }

    /// Compares two records field by field (addresses by their characters).
    pub fn same_as(&self, other: &Utxo) -> (r: bool)
        ensures
            r == (self@ == other@),
    {
        let addr_same = match (&self.address, &other.address) {
            (Some(a), Some(b)) => *a == *b,
            (None, None) => true,
            _ => false,
        };
        let tweak_same = match (&self.tweak, &other.tweak) {
            (Some(a), Some(b)) => a.0 == b.0 && a.1 == b.1,
            (None, None) => true,
            _ => false,
        };
        self.value == other.value && self.height == other.height && self.offset == other.offset
            && self.txid == other.txid && self.vout == other.vout && self.derivation_index
            == other.derivation_index && tweak_same && addr_same
    }
}

/// Copies a list of outputs.
pub fn clone_utxos(v: &Vec<Utxo>) -> (r: Vec<Utxo>)
    ensures
        r@ == v@,
{
    let mut r: Vec<Utxo> = Vec::new();
    let mut i: usize = 0;
    while i < v.len()
        invariant
            i <= v@.len(),
            r@ == v@.subrange(0, i as int),
        decreases v@.len() - i,
    {
        r.push(v[i].clone());
        i = i + 1;
        assert(r@ =~= v@.subrange(0, i as int));
    }
    assert(r@ =~= v@);
    r
}

/// Whether an output with the same view occurs in the list.
pub fn contains_utxo(v: &Vec<Utxo>, u: &Utxo) -> (r: bool)
    ensures
        r == utxos_view(v@).contains(u@),
{
    let mut i: usize = 0;
    while i < v.len()
        invariant
            i <= v@.len(),
            forall|j: int| 0 <= j < i ==> v@[j]@ != u@,
        decreases v@.len() - i,
    {
        if v[i].same_as(u) {
            assert(utxos_view(v@)[i as int] == u@);
            return true;
        }
        i = i + 1;
    }
    assert(!utxos_view(v@).contains(u@)) by {
        if utxos_view(v@).contains(u@) {
            let j = choose|j: int| 0 <= j < utxos_view(v@).len() && utxos_view(v@)[j] == u@;
            assert(v@[j]@ == u@);
        }
    }
    false
}

} // verus!
