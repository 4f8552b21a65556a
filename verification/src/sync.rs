//! Synchronising a contract with the blockchain: the scan of derived scripts
//! in batches, and the bookkeeping of the unspent outputs found. The caller
//! queries the chain between the steps: it lists the unspent outputs of each
//! batch of scripts, resolves the block position of each transaction, and
//! asks for the assets held at each outpoint.

use vstd::prelude::*;

use crate::addrmap::UNHARDENED_MAX;
use crate::ids::{AssetId, BlockPos, Hash32, OutPoint, Txid};
use crate::map::{KeyOrd, SortedMap};
use crate::utxo::{clone_opt_string, opt_string_view, utxos_view, PubKey, Utxo, UtxoV};

verus! {

/// An unspent output reported by the chain for a scanned script.
pub struct FoundOutput {
    /// Height of the block mining the transaction (0 for the mempool).
    pub height: u32,
    pub txid: Txid,
    pub vout: u16,
    pub value: u64,
    /// Derivation index of the script.
    pub derivation_index: u32,
    /// Tweak of the script's key and the tweaked key, for a tweaked script.
    pub tweak: Option<(Hash32, PubKey)>,
    /// Address of the script, where it has one.
    pub address: Option<String>,
}

/// A transaction of the chain: the height it is mined at and its id,
/// ordered by height first.
#[derive(Clone, Copy, PartialEq, Eq, Structural, Debug)]
pub struct TxKey {
    pub height: u32,
    pub txid: Txid,
}

impl KeyOrd for TxKey {
    open spec fn key_lt(self, other: Self) -> bool {
        self.height < other.height || (self.height == other.height && self.txid.key_lt(
            other.txid,
        ))
    }

    proof fn lemma_lt_irreflexive(a: Self) {
    }

    proof fn lemma_lt_transitive(a: Self, b: Self, c: Self) {
    }

    proof fn lemma_lt_total(a: Self, b: Self) {
    }

    fn key_less(&self, other: &Self) -> (r: bool) {
        self.height < other.height || (self.height == other.height && self.txid.key_less(
            &other.txid,
        ))
    }

    fn key_same(&self, other: &Self) -> (r: bool) {
        self.height == other.height && self.txid.key_same(&other.txid)
    }
}

impl FoundOutput {
    pub open spec fn key(&self) -> TxKey {
        TxKey { height: self.height, txid: self.txid }
    }

    pub open spec fn outpoint(&self) -> OutPoint {
        OutPoint { txid: self.txid, vout: self.vout as u32 }
    }

    /// The cache record of this output, mined at `offset` in its block.
    pub open spec fn record(&self, offset: u16) -> UtxoV {
        UtxoV {
            value: self.value,
            height: self.height,
            offset,
            txid: self.txid,
            vout: self.vout,
            derivation_index: self.derivation_index,
            tweak: self.tweak,
            address: opt_string_view(self.address),
        }
    }
}

/// Adds the outputs `items` of one transaction, mined at `offset`: an
/// output whose outpoint is already known is skipped.
pub open spec fn absorb_spec(
    unspent: Seq<UtxoV>,
    known: Set<OutPoint>,
    items: Seq<FoundOutput>,
    offset: u16,
) -> (Seq<UtxoV>, Set<OutPoint>)
    decreases items.len(),
{
    if items.len() == 0 {
        (unspent, known)
    } else {
        let (u, k) = absorb_spec(unspent, known, items.drop_last(), offset);
        let x = items.last();
        if k.contains(x.outpoint()) {
            (u, k)
        } else {
            (u.push(x.record(offset)), k.insert(x.outpoint()))
        }
    }
}

/// Amounts held at each outpoint for each asset, as the caller reports
/// them, in outpoint order.
pub type AssetAmounts = Vec<Vec<(AssetId, Vec<u64>)>>;

pub open spec fn amounts_sum(s: Seq<u64>) -> int
    decreases s.len(),
{
    if s.len() == 0 {
        0
    } else {
        amounts_sum(s.drop_last()) + s.last()
    }
}

/// The outputs of asset `a` that the sync reports: for bitcoin, the found
/// outputs; then, for the `i`-th found output and the `i`-th reported
/// outpoint, a copy of the output holding the asset's total there, when
/// positive.
pub open spec fn asset_outputs(
    unspent: Seq<UtxoV>,
    amounts: Seq<Seq<(AssetId, Seq<u64>)>>,
    a: AssetId,
    n: int,
) -> Seq<UtxoV>
    decreases n,
{
    if n <= 0 {
        if a == Hash32::spec_zero() {
            unspent
        } else {
            Seq::empty()
        }
    } else {
        asset_outputs(unspent, amounts, a, n - 1) + outputs_at(unspent[n - 1], amounts[n - 1], a)
    }
}

/// Copies of `u` holding the asset's totals in `row`, for the entries of
/// asset `a` with a positive total, in order.
pub open spec fn outputs_at(u: UtxoV, row: Seq<(AssetId, Seq<u64>)>, a: AssetId) -> Seq<UtxoV>
    decreases row.len(),
{
    if row.len() == 0 {
        Seq::empty()
    } else {
        let e = row.last();
        outputs_at(u, row.drop_last(), a) + if e.0 == a && amounts_sum(e.1) > 0 {
            seq![UtxoV { value: amounts_sum(e.1) as u64, ..u }]
        } else {
            Seq::empty()
        }
    }
}

/// The view of reported amounts.
pub open spec fn amounts_view(v: AssetAmounts) -> Seq<Seq<(AssetId, Seq<u64>)>> {
    v@.map_values(|row: Vec<(AssetId, Vec<u64>)>| row@.map_values(|e: (AssetId, Vec<u64>)| (e.0, e.1@)))
}

/// State of a contract sync.
pub struct SyncScan {
    /// First derivation index not scanned yet.
    pub index_offset: u32,
    /// Largest derivation index used so far.
    pub last_used: u32,
    /// Number of scripts derived per batch.
    pub lookup_depth: u32,
    /// Outputs found so far.
    pub unspent: Vec<Utxo>,
    /// Their outpoints.
    pub outpoints: SortedMap<OutPoint, ()>,
    /// Positions of the transactions found so far.
    pub mine_info: SortedMap<BlockPos, Txid>,
}

impl SyncScan {
    pub open spec fn wf(&self) -> bool {
        &&& self.outpoints.wf()
        &&& self.mine_info.wf()
        &&& self.index_offset <= UNHARDENED_MAX
    }

    /// A sync that has found nothing yet and starts at index 0; `last_used`
    /// is the largest used derivation index of the contract (0 when none).
    pub fn new(last_used: u32, lookup_depth: u8) -> (r: Self)
        ensures
            r.wf(),
            r.index_offset == 0,
            r.last_used == last_used,
            r.lookup_depth == lookup_depth,
            r.unspent@.len() == 0,
            r.outpoints@.dom() == Set::<OutPoint>::empty(),
            r.mine_info@ == Map::<BlockPos, Txid>::empty(),
    {
        let r = SyncScan {
            index_offset: 0,
            last_used,
            lookup_depth: lookup_depth as u32,
            unspent: Vec::new(),
            outpoints: SortedMap::new(),
            mine_info: SortedMap::new(),
        };
        assert(r.outpoints@.dom() =~= Set::<OutPoint>::empty());
        r
    }

    /// After a batch in which `count` outputs were found: the range of
    /// derivation indexes to scan next, or `None` when the scan is over. It
    /// is over when nothing was found and the scan has passed the last used
    /// index, or when the last unhardened index is reached; otherwise the
    /// next range has `lookup_depth` indexes, cut at the last unhardened
    /// index.
    pub fn next_range(&mut self, count: usize) -> (r: Option<(u32, u32)>)
        requires
            old(self).wf(),
        ensures
            final(self).wf(),
            final(self).last_used == old(self).last_used,
            final(self).lookup_depth == old(self).lookup_depth,
            final(self).unspent@ == old(self).unspent@,
            final(self).outpoints@ == old(self).outpoints@,
            final(self).mine_info@ == old(self).mine_info@,
            (count == 0 && old(self).index_offset > old(self).last_used) || old(self).index_offset
                == UNHARDENED_MAX ==> r is None && final(self).index_offset == old(self).index_offset,
            !((count == 0 && old(self).index_offset > old(self).last_used) || old(self).index_offset
                == UNHARDENED_MAX) ==> {
                let to = if old(self).index_offset + old(self).lookup_depth < UNHARDENED_MAX + 1 {
                    old(self).index_offset + old(self).lookup_depth
                } else {
                    UNHARDENED_MAX as int
                };
                &&& r == Some((old(self).index_offset, to as u32))
                &&& final(self).index_offset == to
            },
    {
        if count == 0 && self.index_offset > self.last_used {
            return None;
        }
        if self.index_offset == UNHARDENED_MAX {
            return None;
        }
        let from = self.index_offset;
        let to: u32 = if self.lookup_depth <= UNHARDENED_MAX - from {
            from + self.lookup_depth
        } else {
            UNHARDENED_MAX
        };
        self.index_offset = to;
        Some((from, to))
    }

    /// Records one transaction found in a batch, mined at `offset` in its
    /// block: its position, and those outputs of `found` that belong to it
    /// and whose outpoint is not known yet, in the order of `found`.
    pub fn record_tx(&mut self, found: &Vec<FoundOutput>, key: TxKey, offset: u16)
        requires
            old(self).wf(),
        ensures
            final(self).wf(),
            final(self).index_offset == old(self).index_offset,
            final(self).last_used == old(self).last_used,
            final(self).lookup_depth == old(self).lookup_depth,
            final(self).mine_info@ == old(self).mine_info@.insert(
                BlockPos { height: key.height, offset },
                key.txid,
            ),
            (utxos_view(final(self).unspent@), final(self).outpoints@.dom()) == absorb_spec(
                utxos_view(old(self).unspent@),
                old(self).outpoints@.dom(),
                found@.filter(|f: FoundOutput| f.key() == key),
                offset,
            ),
    {
        self.mine_info.insert(BlockPos { height: key.height, offset }, key.txid);
        let ghost pred = |f: FoundOutput| f.key() == key;
        let ghost u0 = utxos_view(old(self).unspent@);
        let ghost k0 = old(self).outpoints@.dom();
        let mut j: usize = 0;
        while j < found.len()
            invariant
                j <= found@.len(),
                self.wf(),
                self.index_offset == old(self).index_offset,
                self.last_used == old(self).last_used,
                self.lookup_depth == old(self).lookup_depth,
                self.mine_info@ == old(self).mine_info@.insert(
                    BlockPos { height: key.height, offset },
                    key.txid,
                ),
                pred == (|f: FoundOutput| f.key() == key),
                (utxos_view(self.unspent@), self.outpoints@.dom()) == absorb_spec(
                    u0,
                    k0,
                    found@.take(j as int).filter(pred),
                    offset,
                ),
            decreases found@.len() - j,
        {
            let x = &found[j];
            proof {
                reveal(Seq::filter);
                assert(found@.take(j + 1).drop_last() =~= found@.take(j as int));
                assert(found@.take(j + 1).last() == *x);
            }
            if x.height == key.height && x.txid.key_same(&key.txid) {
                let op = OutPoint { txid: x.txid, vout: x.vout as u32 };
                proof {
                    assert(found@.take(j + 1).filter(pred) == found@.take(j as int).filter(pred).push(*x));
                    assert(found@.take(j + 1).filter(pred).drop_last() =~= found@.take(j as int).filter(pred));
                }
                if !self.outpoints.contains_key(&op) {
                    let ghost before = self.outpoints@.dom();
                    self.outpoints.insert(op, ());
                    self.unspent.push(
                        Utxo {
                            value: x.value,
                            height: x.height,
                            offset,
                            txid: x.txid,
                            vout: x.vout,
                            derivation_index: x.derivation_index,
                            tweak: x.tweak,
                            address: clone_opt_string(&x.address),
                        },
                    );
                    proof {
                        assert(self.outpoints@.dom() =~= before.insert(op));
                        assert(utxos_view(self.unspent@) =~= utxos_view(self.unspent@).drop_last().push(x.record(offset)));
                    }
                }
            } else {
                proof {
                    assert(found@.take(j + 1).filter(pred) == found@.take(j as int).filter(pred));
                }
            }
            j = j + 1;
        }
        assert(found@.take(j as int) =~= found@);
    }

    /// The outputs found by the sync, by asset: the bitcoin outputs, and for
    /// the `i`-th found output and the `i`-th entry of `amounts` (the assets
    /// the `i`-th outpoint holds, in outpoint order), a copy of the output
    /// holding each asset's total amount there, when positive.
    pub fn assets(&self, amounts: &AssetAmounts) -> (r: SortedMap<AssetId, Vec<Utxo>>)
        requires
            self.wf(),
            forall|i: int, e: int|
                0 <= i < amounts@.len() && 0 <= e < amounts@[i]@.len() ==> amounts_sum(
                    #[trigger] amounts@[i]@[e].1@,
                ) <= u64::MAX,
        ensures
            r.wf(),
            ({
                let n = if self.unspent@.len() < amounts@.len() {
                    self.unspent@.len() as int
                } else {
                    amounts@.len() as int
                };
                &&& forall|a: AssetId| #[trigger]
                    r@.contains_key(a) ==> utxos_view(r@[a]@) == asset_outputs(
                        utxos_view(self.unspent@),
                        amounts_view(*amounts),
                        a,
                        n,
                    )
                &&& r@.contains_key(Hash32::spec_zero())
                &&& forall|a: AssetId|
                    a != Hash32::spec_zero() ==> (#[trigger] r@.contains_key(a) <==> asset_outputs(
                        utxos_view(self.unspent@),
                        amounts_view(*amounts),
                        a,
                        n,
                    ).len() > 0)
            }),
    {
        let ghost us = utxos_view(self.unspent@);
        let ghost am = amounts_view(*amounts);
        let mut r: SortedMap<AssetId, Vec<Utxo>> = SortedMap::new();
        r.insert(Hash32::zero(), crate::utxo::clone_utxos(&self.unspent));
        let n: usize = if self.unspent.len() < amounts.len() {
            self.unspent.len()
        } else {
            amounts.len()
        };
        let mut i: usize = 0;
        while i < n
            invariant
                i <= n,
                n <= self.unspent@.len(),
                n <= amounts@.len(),
                us == utxos_view(self.unspent@),
                am == amounts_view(*amounts),
                forall|i: int, e: int|
                    0 <= i < amounts@.len() && 0 <= e < amounts@[i]@.len() ==> amounts_sum(
                        #[trigger] amounts@[i]@[e].1@,
                    ) <= u64::MAX,
                r.wf(),
                r@.contains_key(Hash32::spec_zero()),
                forall|a: AssetId| #[trigger]
                    r@.contains_key(a) ==> utxos_view(r@[a]@) == asset_outputs(us, am, a, i as int),
                forall|a: AssetId|
                    a != Hash32::spec_zero() ==> (#[trigger] r@.contains_key(a) <==> asset_outputs(
                        us,
                        am,
                        a,
                        i as int,
                    ).len() > 0),
            decreases n - i,
        {
            let row = &amounts[i];
            let u = &self.unspent[i];
            let mut e: usize = 0;
            while e < row.len()
                invariant
                    i < n,
                    n <= self.unspent@.len(),
                    n <= amounts@.len(),
                    *row == amounts@[i as int],
                    *u == self.unspent@[i as int],
                    e <= row@.len(),
                    us == utxos_view(self.unspent@),
                    am == amounts_view(*amounts),
                    forall|i: int, e: int|
                        0 <= i < amounts@.len() && 0 <= e < amounts@[i]@.len() ==> amounts_sum(
                            #[trigger] amounts@[i]@[e].1@,
                        ) <= u64::MAX,
                    r.wf(),
                    r@.contains_key(Hash32::spec_zero()),
                    forall|a: AssetId| #[trigger]
                        r@.contains_key(a) ==> utxos_view(r@[a]@) == asset_outputs(us, am, a, i as int)
                            + outputs_at(us[i as int], am[i as int].take(e as int), a),
                    forall|a: AssetId|
                        a != Hash32::spec_zero() ==> (#[trigger] r@.contains_key(a) <==> (asset_outputs(
                            us,
                            am,
                            a,
                            i as int,
                        ) + outputs_at(us[i as int], am[i as int].take(e as int), a)).len() > 0),
                decreases row@.len() - e,
            {
                let entry = &row[e];
                let total = sum_amounts(&entry.1);
                let a = entry.0;
                proof {
                    assert(am[i as int].take(e + 1).drop_last() =~= am[i as int].take(e as int));
                    assert(am[i as int].take(e + 1).last() == (entry.0, entry.1@));
                    assert(us[i as int] == u@);
                }
                if total > 0 {
                    let mut list = match r.remove(&a) {
                        Some(l) => l,
                        None => Vec::new(),
                    };
                    let ghost before = list@;
                    list.push(
                        Utxo {
                            value: total,
                            height: u.height,
                            offset: u.offset,
                            txid: u.txid,
                            vout: u.vout,
                            derivation_index: u.derivation_index,
                            tweak: u.tweak,
                            address: clone_opt_string(&u.address),
                        },
                    );
                    r.insert(a, list);
                    proof {
                        assert(utxos_view(list@) =~= utxos_view(before) + seq![
                            UtxoV { value: total, ..u@ },
                        ]);
                        assert forall|b: AssetId| #[trigger] r@.contains_key(b) implies utxos_view(r@[b]@)
                            == asset_outputs(us, am, b, i as int) + outputs_at(
                            us[i as int],
                            am[i as int].take(e + 1),
                            b,
                        ) by {
                            if b == a {
                                assert(outputs_at(us[i as int], am[i as int].take(e as int), b)
                                    + seq![UtxoV { value: total, ..u@ }] == outputs_at(
                                    us[i as int],
                                    am[i as int].take(e + 1),
                                    b,
                                ));
                                if before.len() == 0 {
                                    assert(utxos_view(before) =~= Seq::<UtxoV>::empty());
                                }
                            }
                        }
                    }
                } else {
                    proof {
                        assert forall|b: AssetId| #[trigger] r@.contains_key(b) implies utxos_view(r@[b]@)
                            == asset_outputs(us, am, b, i as int) + outputs_at(
                            us[i as int],
                            am[i as int].take(e + 1),
                            b,
                        ) by {
                            assert(outputs_at(us[i as int], am[i as int].take(e + 1), b) =~= outputs_at(
                                us[i as int],
                                am[i as int].take(e as int),
                                b,
                            ));
                        }
                    }
                }
                e = e + 1;
            }
            proof {
                assert(am[i as int].take(e as int) =~= am[i as int]);
            }
            i = i + 1;
        }
        r
    }
}

/// Sum of reported amounts.
fn sum_amounts(v: &Vec<u64>) -> (r: u64)
    requires
        amounts_sum(v@) <= u64::MAX,
    ensures
        r == amounts_sum(v@),
{
    let mut s: u64 = 0;
    let mut i: usize = 0;
    while i < v.len()
        invariant
            i <= v@.len(),
            amounts_sum(v@) <= u64::MAX,
            s == amounts_sum(v@.take(i as int)),
        decreases v@.len() - i,
    {
        proof {
            assert(v@.take(i + 1).drop_last() =~= v@.take(i as int));
            lemma_amounts_prefix(v@, i + 1);
        }
        s = s + v[i];
        i = i + 1;
    }
    assert(v@.take(i as int) =~= v@);
    s
}

proof fn lemma_amounts_prefix(s: Seq<u64>, n: int)
    requires
        0 <= n <= s.len(),
    ensures
        0 <= amounts_sum(s.take(n)) <= amounts_sum(s),
    decreases s.len(),
{
    if n == s.len() {
        assert(s.take(n) =~= s);
        lemma_amounts_nonneg(s);
    } else {
        lemma_amounts_prefix(s.drop_last(), n);
        assert(s.drop_last().take(n) =~= s.take(n));
    }
}

proof fn lemma_amounts_nonneg(s: Seq<u64>)
    ensures
        amounts_sum(s) >= 0,
    decreases s.len(),
{
    if s.len() > 0 {
        lemma_amounts_nonneg(s.drop_last());
    }
}

/// The transactions of the outputs found in a batch, each once, in
/// increasing order.
pub fn tx_keys(found: &Vec<FoundOutput>) -> (r: Vec<TxKey>)
    ensures
        forall|i: int, j: int| 0 <= i < j < r@.len() ==> #[trigger] r@[i].key_lt(#[trigger] r@[j]),
        forall|k: TxKey| r@.contains(k) <==> exists|i: int| 0 <= i < found@.len() && #[trigger] found@[i].key() == k,
{
    let mut m: SortedMap<TxKey, ()> = SortedMap::new();
    let mut i: usize = 0;
    while i < found.len()
        invariant
            i <= found@.len(),
            m.wf(),
            forall|k: TxKey| #[trigger] m@.contains_key(k) <==> exists|j: int| 0 <= j < i && #[trigger] found@[j].key() == k,
        decreases found@.len() - i,
    {
        let k = TxKey { height: found[i].height, txid: found[i].txid };
        m.insert(k, ());
        proof {
            assert forall|kk: TxKey| #[trigger] m@.contains_key(kk) <==> exists|j: int| 0 <= j < i + 1 && #[trigger] found@[j].key() == kk by {
                if kk == k {
                    assert(found@[i as int].key() == kk);
                } else if exists|j: int| 0 <= j < i + 1 && #[trigger] found@[j].key() == kk {
                    let j = choose|j: int| 0 <= j < i + 1 && #[trigger] found@[j].key() == kk;
                    assert(j < i);
                }
            }
        }
        i = i + 1;
    }
    let r = m.keys();
    proof {
        m.lemma_view_entries();
        assert forall|k: TxKey| r@.contains(k) <==> exists|i: int| 0 <= i < found@.len() && #[trigger] found@[i].key() == k by {
            if r@.contains(k) {
                let p = choose|p: int| 0 <= p < r@.len() && r@[p] == k;
                assert(m.key_seq()[p] == m.entries()[p].0);
                assert(m.entries()[p].0 == k);
                assert(m@.contains_key(k));
            }
            if exists|i: int| 0 <= i < found@.len() && #[trigger] found@[i].key() == k {
                assert(m@.contains_key(k));
                let p = choose|p: int| 0 <= p < m.entries().len() && m.entries()[p].0 == k;
                assert(m.key_seq()[p] == m.entries()[p].0);
                assert(r@[p] == k);
            }
        }
    }
    r
}

} // verus!
