//! Queries over the cached unspent outputs of a contract: the outputs of each
//! asset, the amounts allocated to each transaction output, and the outputs
//! that carry bitcoin only; and the update that replaces them after a sync.

use vstd::prelude::*;

use crate::cache::{unspent_wf, ContractCache, CacheError, FileDriver};
use crate::ids::{AssetId, BlockPos, ContractId, Hash32, OutPoint, Txid};
use crate::map::{KeyOrd, SortedMap};
use crate::utxo::{clone_utxos, contains_utxo, utxos_view, Utxo, UtxoV};

verus! {

/// Total amount that the outputs of `s` at outpoint `o` hold.
pub open spec fn sum_at(s: Seq<UtxoV>, o: OutPoint) -> int
    decreases s.len(),
{
    if s.len() == 0 {
        0
    } else {
        sum_at(s.drop_last(), o) + if s.last().outpoint() == o {
            s.last().value as int
        } else {
            0
        }
    }
}

/// Some output of `s` is at outpoint `o`.
pub open spec fn has_at(s: Seq<UtxoV>, o: OutPoint) -> bool {
    exists|i: int| 0 <= i < s.len() && #[trigger] s[i].outpoint() == o
}

/// The outputs of each asset of an unspent map, as values.
pub open spec fn unspent_view(m: SortedMap<AssetId, Vec<Utxo>>) -> Map<AssetId, Seq<UtxoV>> {
    Map::new(|a: AssetId| m@.contains_key(a), |a: AssetId| utxos_view(m@[a]@))
}

/// The unspent outputs that a contract has cached (none for an unknown
/// contract).
pub open spec fn unspent_of(d: FileDriver, c: ContractId) -> Map<AssetId, Seq<UtxoV>> {
    if d.cache.descriptors@.contains_key(c) {
        unspent_view(d.cache.descriptors@[c].unspent)
    } else {
        Map::empty()
    }
}

/// Some output of asset `a` is at outpoint `o`.
pub open spec fn allocates(u: Map<AssetId, Seq<UtxoV>>, o: OutPoint, a: AssetId) -> bool {
    u.contains_key(a) && has_at(u[a], o)
}

/// Amount of asset `a` held at outpoint `o`.
pub open spec fn allocated(u: Map<AssetId, Seq<UtxoV>>, o: OutPoint, a: AssetId) -> int {
    if u.contains_key(a) {
        sum_at(u[a], o)
    } else {
        0
    }
}

/// No asset but bitcoin has a non-zero amount at outpoint `o`.
pub open spec fn bitcoin_only_at(u: Map<AssetId, Seq<UtxoV>>, o: OutPoint) -> bool {
    forall|a: AssetId|
        a != Hash32::spec_zero() && #[trigger] u.contains_key(a) ==> sum_at(u[a], o) == 0
}

/// The bitcoin outputs of `u` whose outpoint carries bitcoin only.
pub open spec fn bitcoin_only(u: Map<AssetId, Seq<UtxoV>>) -> Seq<UtxoV> {
    if u.contains_key(Hash32::spec_zero()) {
        u[Hash32::spec_zero()].filter(|x: UtxoV| bitcoin_only_at(u, x.outpoint()))
    } else {
        Seq::empty()
    }
}

/// Outputs with a positive amount, each kept once, in the order of their
/// first occurrence.
pub open spec fn dedup_positive(s: Seq<UtxoV>) -> Seq<UtxoV>
    decreases s.len(),
{
    if s.len() == 0 {
        s
    } else {
        let r = dedup_positive(s.drop_last());
        if s.last().value > 0 && !r.contains(s.last()) {
            r.push(s.last())
        } else {
            r
        }
    }
}

/// Every asset amount at every outpoint fits in 64 bits.
pub open spec fn sums_fit(u: Map<AssetId, Seq<UtxoV>>) -> bool {
    forall|a: AssetId, o: OutPoint| #[trigger] u.contains_key(a) ==> #[trigger] sum_at(u[a], o) <= u64::MAX
}

/// The accumulated allocations agree with the outputs `t` of asset `a` at
/// outpoint `p`.
spec fn alloc_matches(
    acc: Map<OutPoint, SortedMap<AssetId, u64>>,
    a: AssetId,
    t: Seq<UtxoV>,
    p: OutPoint,
) -> bool {
    &&& (acc.contains_key(p) && acc[p]@.contains_key(a)) == has_at(t, p)
    &&& (acc.contains_key(p) && acc[p]@.contains_key(a)) ==> acc[p]@[a] == sum_at(t, p)
}

/// The outputs of the `k`-th asset already accounted for, when the first `i`
/// assets and the first `j` outputs of asset `i` are.
spec fn done_prefix(ents: Seq<(AssetId, Vec<Utxo>)>, k: int, i: int, j: int) -> Seq<UtxoV> {
    let t = utxos_view(ents[k].1@);
    if k < i {
        t
    } else if k == i {
        t.take(j)
    } else {
        t.take(0)
    }
}

proof fn lemma_sum_step(s: Seq<UtxoV>, j: int, o: OutPoint)
    requires
        0 <= j < s.len(),
    ensures
        sum_at(s.take(j + 1), o) == sum_at(s.take(j), o) + if s[j].outpoint() == o {
            s[j].value as int
        } else {
            0
        },
        has_at(s.take(j + 1), o) == (has_at(s.take(j), o) || s[j].outpoint() == o),
{
    assert(s.take(j + 1).drop_last() =~= s.take(j));
    assert(s.take(j + 1).last() == s[j]);
    if has_at(s.take(j + 1), o) && !(s[j].outpoint() == o) {
        let i = choose|i: int| 0 <= i < s.take(j + 1).len() && #[trigger] s.take(j + 1)[i].outpoint() == o;
        assert(s.take(j)[i].outpoint() == o);
    }
    if has_at(s.take(j), o) {
        let i = choose|i: int| 0 <= i < s.take(j).len() && #[trigger] s.take(j)[i].outpoint() == o;
        assert(s.take(j + 1)[i].outpoint() == o);
    }
    if s[j].outpoint() == o {
        assert(s.take(j + 1)[j].outpoint() == o);
    }
}

proof fn lemma_sum_prefix(s: Seq<UtxoV>, n: int, o: OutPoint)
    requires
        0 <= n <= s.len(),
    ensures
        0 <= sum_at(s.take(n), o) <= sum_at(s, o),
    decreases s.len(),
{
    if n == s.len() {
        assert(s.take(n) =~= s);
        lemma_sum_nonneg(s, o);
    } else {
        lemma_sum_prefix(s.drop_last(), n, o);
        assert(s.drop_last().take(n) =~= s.take(n));
        lemma_sum_nonneg(s.drop_last(), o);
    }
}

proof fn lemma_sum_absent(s: Seq<UtxoV>, o: OutPoint)
    requires
        !has_at(s, o),
    ensures
        sum_at(s, o) == 0,
    decreases s.len(),
{
    if s.len() > 0 {
        assert(!(s[s.len() - 1].outpoint() == o));
        assert forall|i: int| 0 <= i < s.drop_last().len() implies !(#[trigger] s.drop_last()[i].outpoint() == o) by {
            assert(s[i].outpoint() != o);
        }
        lemma_sum_absent(s.drop_last(), o);
    }
}

proof fn lemma_sum_nonneg(s: Seq<UtxoV>, o: OutPoint)
    ensures
        sum_at(s, o) >= 0,
    decreases s.len(),
{
    if s.len() > 0 {
        lemma_sum_nonneg(s.drop_last(), o);
    }
}

/// An output is offered for bitcoin-only spending exactly when it is one of
/// the bitcoin outputs and no other asset has a non-zero allocation at its
/// outpoint.
pub proof fn lemma_bitcoin_only_iff_unallocated(u: Map<AssetId, Seq<UtxoV>>, x: UtxoV)
    ensures
        bitcoin_only(u).contains(x) <==> {
            &&& u.contains_key(Hash32::spec_zero())
            &&& u[Hash32::spec_zero()].contains(x)
            &&& forall|a: AssetId| a != Hash32::spec_zero() ==> #[trigger] allocated(u, x.outpoint(), a) == 0
        },
{
    let z = Hash32::spec_zero();
    let pred = |y: UtxoV| bitcoin_only_at(u, y.outpoint());
    if u.contains_key(z) {
        let s = u[z];
        if s.filter(pred).contains(x) {
            s.lemma_filter_contains_rev(pred, x);
            let i = choose|i: int| 0 <= i < s.filter(pred).len() && s.filter(pred)[i] == x;
            s.lemma_filter_pred(pred, i);
        }
        if s.contains(x) && (forall|a: AssetId| a != z ==> #[trigger] allocated(u, x.outpoint(), a) == 0) {
            let i = choose|i: int| 0 <= i < s.len() && s[i] == x;
            assert forall|a: AssetId| a != z && #[trigger] u.contains_key(a) implies sum_at(u[a], x.outpoint()) == 0 by {
                assert(allocated(u, x.outpoint(), a) == 0);
            }
            s.lemma_filter_contains(pred, i);
        }
    }
}

/// Whether the outputs in `v` at `o` hold nothing.
fn holds_nothing_at(v: &Vec<Utxo>, o: OutPoint) -> (r: bool)
    ensures
        r == (sum_at(utxos_view(v@), o) == 0),
{
    let ghost s = utxos_view(v@);
    let mut j: usize = 0;
    while j < v.len()
        invariant
            j <= v@.len(),
            s == utxos_view(v@),
            sum_at(s.take(j as int), o) == 0,
        decreases v@.len() - j,
    {
        proof {
            lemma_sum_step(s, j as int, o);
        }
        if v[j].outpoint() == o && v[j].value != 0 {
            proof {
                lemma_sum_prefix(s, j + 1, o);
            }
            return false;
        }
        j = j + 1;
    }
    assert(s.take(j as int) =~= s);
    true
}

/// Adds `v` to the amount of asset `a` at outpoint `o`.
fn add_allocation(
    acc: &mut SortedMap<OutPoint, SortedMap<AssetId, u64>>,
    o: OutPoint,
    a: AssetId,
    v: u64,
)
    requires
        old(acc).wf(),
        forall|p: OutPoint| #[trigger] old(acc)@.contains_key(p) ==> old(acc)@[p].wf(),
        old(acc)@.contains_key(o) && old(acc)@[o]@.contains_key(a) ==> old(acc)@[o]@[a] + v
            <= u64::MAX,
    ensures
        final(acc).wf(),
        forall|p: OutPoint| #[trigger] final(acc)@.contains_key(p) ==> final(acc)@[p].wf(),
        final(acc)@.dom() == old(acc)@.dom().insert(o),
        forall|p: OutPoint|
            p != o && #[trigger] old(acc)@.contains_key(p) ==> final(acc)@[p] == old(acc)@[p],
        final(acc)@[o]@ == (if old(acc)@.contains_key(o) {
            old(acc)@[o]@
        } else {
            Map::empty()
        }).insert(
            a,
            ((if old(acc)@.contains_key(o) && old(acc)@[o]@.contains_key(a) {
                old(acc)@[o]@[a]
            } else {
                0
            }) + v) as u64,
        ),
{
    let mut inner = match acc.remove(&o) {
        Some(m) => m,
        None => SortedMap::new(),
    };
    let cur: u64 = match inner.get(&a) {
        Some(x) => *x,
        None => 0,
    };
    inner.insert(a, cur + v);
    acc.insert(o, inner);
    assert(acc@.dom() =~= old(acc)@.dom().insert(o));
}

impl FileDriver {
    /// Unspent outputs of a contract by asset (empty for an unknown
    /// contract).
    pub fn unspent(&self, contract_id: ContractId) -> (r: Result<SortedMap<AssetId, Vec<Utxo>>, CacheError>)
        requires
            self.wf(),
        ensures
            match r {
                Ok(m) => unspent_wf(m) && unspent_view(m) == unspent_of(*self, contract_id),
                Err(_) => false,
            },
    {
        match self.cache.descriptors.get(&contract_id) {
            Some(c) => {
                let m = clone_unspent(&c.unspent);
                assert(unspent_view(m) =~= unspent_view(c.unspent));
                Ok(m)
            },
            None => {
                let m: SortedMap<AssetId, Vec<Utxo>> = SortedMap::new();
                assert(unspent_view(m) =~= Map::<AssetId, Seq<UtxoV>>::empty());
                Ok(m)
            },
        }
    }

    /// Amount of each asset held at each outpoint of a contract. An outpoint
    /// is listed when some output of some asset is there, and an asset under
    /// it when some output of that asset is there.
    pub fn allocations(&self, contract_id: ContractId) -> (r: Result<
        SortedMap<OutPoint, SortedMap<AssetId, u64>>,
        CacheError,
    >)
        requires
            self.wf(),
            sums_fit(unspent_of(*self, contract_id)),
        ensures
            match r {
                Ok(m) => {
                    let u = unspent_of(*self, contract_id);
                    &&& m.wf()
                    &&& forall|o: OutPoint| #[trigger] m@.contains_key(o) ==> m@[o].wf()
                    &&& forall|o: OutPoint|
                        #[trigger] m@.contains_key(o) <==> exists|a: AssetId| allocates(u, o, a)
                    &&& forall|o: OutPoint, a: AssetId| #[trigger]
                        m@.contains_key(o) ==> (#[trigger] m@[o]@.contains_key(a) <==> allocates(
                            u,
                            o,
                            a,
                        ))
                    &&& forall|o: OutPoint, a: AssetId|
                        #[trigger] m@.contains_key(o) && #[trigger] m@[o]@.contains_key(a)
                            ==> m@[o]@[a] == allocated(u, o, a)
                },
                Err(_) => false,
            },
    {
        let mut acc: SortedMap<OutPoint, SortedMap<AssetId, u64>> = SortedMap::new();
        let c = match self.cache.descriptors.get(&contract_id) {
            Some(c) => c,
            None => {
                assert forall|o: OutPoint| #[trigger] acc@.contains_key(o) <==> exists|a: AssetId|
                    allocates(unspent_of(*self, contract_id), o, a) by {}
                return Ok(acc);
            },
        };
        let ghost u = unspent_of(*self, contract_id);
        let ghost m = c.unspent;
        let ghost ents = m.entries();
        proof {
            m.lemma_view_entries();
        }
        let n = c.unspent.len();
        let mut i: usize = 0;
        while i < n
            invariant
                n == ents.len(),
                i <= n,
                m == c.unspent,
                ents == m.entries(),
                m.wf(),
                u == unspent_view(m),
                sums_fit(u),
                acc.wf(),
                forall|p: OutPoint| #[trigger] acc@.contains_key(p) ==> acc@[p].wf(),
                forall|p: OutPoint| #[trigger] acc@.contains_key(p) ==> acc@[p]@.dom() != Set::<AssetId>::empty(),
                forall|p: OutPoint, a: AssetId| #[trigger] acc@.contains_key(p) && #[trigger] acc@[p]@.contains_key(a) ==> m@.contains_key(a),
                forall|k: int, p: OutPoint|
                    0 <= k < n ==> #[trigger] alloc_matches(acc@, ents[k].0, done_prefix(ents, k, i as int, 0), p),
            decreases n - i,
        {
            let e = c.unspent.entry_at(i);
            let a = e.0;
            let ghost s = utxos_view(e.1@);
            proof {
                m.lemma_position(i as int);
            }
            let mut j: usize = 0;
            while j < e.1.len()
                invariant
                    n == ents.len(),
                    i < n,
                    j <= e.1@.len(),
                    *e == ents[i as int],
                    a == e.0,
                    s == utxos_view(e.1@),
                    m.wf(),
                    m@.contains_key(a),
                    m@[a] == e.1,
                    u == unspent_view(m),
                    sums_fit(u),
                    ents == m.entries(),
                    acc.wf(),
                    forall|p: OutPoint| #[trigger] acc@.contains_key(p) ==> acc@[p].wf(),
                    forall|p: OutPoint| #[trigger] acc@.contains_key(p) ==> acc@[p]@.dom() != Set::<AssetId>::empty(),
                    forall|p: OutPoint, b: AssetId| #[trigger] acc@.contains_key(p) && #[trigger] acc@[p]@.contains_key(b) ==> m@.contains_key(b),
                    forall|k: int, p: OutPoint|
                        0 <= k < n ==> #[trigger] alloc_matches(acc@, ents[k].0, done_prefix(ents, k, i as int, j as int), p),
                decreases e.1@.len() - j,
            {
                let x = &e.1[j];
                let o = x.outpoint();
                proof {
                    lemma_sum_step(s, j as int, o);
                    lemma_sum_prefix(s, j + 1, o);
                    assert(u.contains_key(a));
                    assert(sum_at(u[a], o) <= u64::MAX);
                    assert(s[j as int] == x@);
                    assert(alloc_matches(acc@, ents[i as int].0, done_prefix(ents, i as int, i as int, j as int), o));
                }
                let ghost old_acc = acc@;
                add_allocation(&mut acc, o, a, x.value);
                proof {
                    assert forall|p: OutPoint| #[trigger] acc@.contains_key(p) implies acc@[p]@.dom()
                        != Set::<AssetId>::empty() by {
                        if p == o {
                            assert(acc@[o]@.dom().contains(a));
                        } else {
                            assert(old_acc.contains_key(p));
                        }
                    }
                    assert forall|k: int, p: OutPoint| 0 <= k < n implies #[trigger] alloc_matches(
                        acc@,
                        ents[k].0,
                        done_prefix(ents, k, i as int, j + 1),
                        p,
                    ) by {
                        assert(alloc_matches(old_acc, ents[k].0, done_prefix(ents, k, i as int, j as int), p));
                        if k != i {
                            assert(ents[k].0 != a) by {
                                if k < i {
                                    assert(ents[k].0.key_lt(ents[i as int].0));
                                } else {
                                    assert(ents[i as int].0.key_lt(ents[k].0));
                                }
                                AssetId::lemma_lt_irreflexive(a);
                            }
                        } else {
                            lemma_sum_step(s, j as int, p);
                            if !has_at(s.take(j as int), p) {
                                lemma_sum_absent(s.take(j as int), p);
                            }
                        }
                    }
                }
                j = j + 1;
            }
            proof {
                assert forall|k: int, p: OutPoint| 0 <= k < n implies #[trigger] alloc_matches(
                    acc@,
                    ents[k].0,
                    done_prefix(ents, k, i + 1, 0),
                    p,
                ) by {
                    assert(alloc_matches(acc@, ents[k].0, done_prefix(ents, k, i as int, j as int), p));
                    if k == i {
                        assert(s.take(j as int) =~= s);
                    }
                }
            }
            i = i + 1;
        }
        proof {
            assert forall|a: AssetId, p: OutPoint| m@.contains_key(a) implies #[trigger] alloc_matches(
                acc@,
                a,
                u[a],
                p,
            ) by {
                let k = choose|k: int| 0 <= k < ents.len() && ents[k].0 == a;
                assert(alloc_matches(acc@, ents[k].0, done_prefix(ents, k, i as int, 0), p));
            }
            assert forall|o: OutPoint| #[trigger] acc@.contains_key(o) <==> exists|a: AssetId|
                allocates(u, o, a) by {
                if acc@.contains_key(o) {
                    let a = acc@[o]@.dom().choose();
                    if !acc@[o]@.dom().contains(a) {
                        assert(acc@[o]@.dom() =~= Set::<AssetId>::empty());
                    }
                    assert(m@.contains_key(a));
                    assert(alloc_matches(acc@, a, u[a], o));
                    assert(allocates(u, o, a));
                }
                if exists|a: AssetId| allocates(u, o, a) {
                    let a = choose|a: AssetId| allocates(u, o, a);
                    assert(alloc_matches(acc@, a, u[a], o));
                }
            }
            assert forall|o: OutPoint, a: AssetId| #[trigger]
                acc@.contains_key(o) implies (#[trigger] acc@[o]@.contains_key(a) <==> allocates(u, o, a)) by {
                if m@.contains_key(a) {
                    assert(alloc_matches(acc@, a, u[a], o));
                }
            }
            assert forall|o: OutPoint, a: AssetId|
                #[trigger] acc@.contains_key(o) && #[trigger] acc@[o]@.contains_key(a)
                    implies acc@[o]@[a] == allocated(u, o, a) by {
                assert(alloc_matches(acc@, a, u[a], o));
            }
        }
        Ok(acc)
    }

    /// The bitcoin outputs of a contract whose outpoints hold no amount of
    /// any other asset, in the order the cache keeps them.
    pub fn unspent_bitcoin_only(&self, contract_id: ContractId) -> (r: Result<Vec<Utxo>, CacheError>)
        requires
            self.wf(),
        ensures
            match r {
                Ok(v) => utxos_view(v@) == bitcoin_only(unspent_of(*self, contract_id)),
                Err(_) => false,
            },
    {
        let ghost u = unspent_of(*self, contract_id);
        let c = match self.cache.descriptors.get(&contract_id) {
            Some(c) => c,
            None => {
                let v: Vec<Utxo> = Vec::new();
                assert(utxos_view(v@) =~= bitcoin_only(u));
                return Ok(v);
            },
        };
        let zero = Hash32::zero();
        let btc = match c.unspent.get(&zero) {
            Some(b) => b,
            None => {
                let v: Vec<Utxo> = Vec::new();
                assert(utxos_view(v@) =~= bitcoin_only(u));
                return Ok(v);
            },
        };
        let ghost s = utxos_view(btc@);
        let ghost pred = |x: UtxoV| bitcoin_only_at(u, x.outpoint());
        let mut r: Vec<Utxo> = Vec::new();
        let mut j: usize = 0;
        while j < btc.len()
            invariant
                j <= btc@.len(),
                s == utxos_view(btc@),
                u == unspent_view(c.unspent),
                c.unspent.wf(),
                pred == (|x: UtxoV| bitcoin_only_at(u, x.outpoint())),
                utxos_view(r@) == s.take(j as int).filter(pred),
            decreases btc@.len() - j,
        {
            let x = &btc[j];
            let keep = carries_bitcoin_only(&c.unspent, x.outpoint());
            proof {
                reveal(Seq::filter);
                assert(s.take(j + 1).drop_last() =~= s.take(j as int));
                assert(s.take(j + 1).last() == x@);
            }
            if keep {
                r.push(x.clone());
                assert(utxos_view(r@) =~= s.take(j + 1).filter(pred));
            } else {
                assert(utxos_view(r@) =~= s.take(j + 1).filter(pred));
            }
            j = j + 1;
        }
        assert(s.take(j as int) =~= s);
        Ok(r)
    }

    /// Replaces the cached outputs of a contract after a sync: the mined
    /// transaction positions are merged in, the outputs of each asset are
    /// replaced by the given ones that hold a positive amount (each kept
    /// once), the outpoint set is replaced, and the heights are set when a
    /// height is given. Writing the cache file is left to the caller.
    pub fn update(
        &mut self,
        contract_id: ContractId,
        mine_info: SortedMap<BlockPos, Txid>,
        updated_height: Option<u32>,
        utxo: SortedMap<OutPoint, ()>,
        unspent: SortedMap<AssetId, Vec<Utxo>>,
    )
        requires
            old(self).wf(),
            mine_info.wf(),
            utxo.wf(),
            unspent.wf(),
        ensures
            final(self).wf(),
            final(self).config == old(self).config,
            final(self).cache.mine_info@ == old(self).cache.mine_info@.union_prefer_right(
                mine_info@,
            ),
            final(self).cache.known_height == match updated_height {
                Some(h) => h,
                None => old(self).cache.known_height,
            },
            final(self).cache.descriptors@.dom() == old(self).cache.descriptors@.dom().insert(
                contract_id,
            ),
            forall|c: ContractId|
                c != contract_id && #[trigger] old(self).cache.descriptors@.contains_key(c)
                    ==> final(self).cache.descriptors@[c] == old(self).cache.descriptors@[c],
            ({
                let n = final(self).cache.descriptors@[contract_id];
                &&& n.utxo@ == utxo@
                &&& n.unspent@.dom() == unspent@.dom()
                &&& forall|a: AssetId| #[trigger]
                    n.unspent@.contains_key(a) ==> utxos_view(n.unspent@[a]@) == dedup_positive(
                        utxos_view(unspent@[a]@),
                    )
                &&& n.used_address_derivations@ == (if old(
                    self,
                ).cache.descriptors@.contains_key(contract_id) {
                    old(self).cache.descriptors@[contract_id].used_address_derivations@
                } else {
                    Map::empty()
                })
                &&& n.updated_height == match updated_height {
                    Some(h) => h,
                    None => if old(self).cache.descriptors@.contains_key(contract_id) {
                        old(self).cache.descriptors@[contract_id].updated_height
                    } else {
                        0
                    },
                }
            }),
    {
        merge_mine_info(&mut self.cache.mine_info, &mine_info);
        let mut cache = match self.cache.descriptors.remove(&contract_id) {
            Some(c) => c,
            None => ContractCache::new(),
        };
        cache.unspent = positive_unspent(&unspent);
        cache.utxo = utxo;
        if let Some(h) = updated_height {
            self.cache.known_height = h;
            cache.updated_height = h;
        }
        self.cache.descriptors.insert(contract_id, cache);
        proof {
            assert(self.cache.descriptors@.dom() =~= old(self).cache.descriptors@.dom().insert(
                contract_id,
            ));
            assert forall|c: ContractId| #[trigger]
                self.cache.descriptors@.contains_key(c) implies self.cache.descriptors@[c].wf() by {
                if c != contract_id {
                    assert(old(self).cache.descriptors@.contains_key(c));
                }
            }
        }
    }
}

/// Whether no asset but bitcoin has a non-zero amount at `o`.
fn carries_bitcoin_only(m: &SortedMap<AssetId, Vec<Utxo>>, o: OutPoint) -> (r: bool)
    requires
        m.wf(),
    ensures
        r == bitcoin_only_at(unspent_view(*m), o),
{
    let ghost u = unspent_view(*m);
    proof {
        m.lemma_view_entries();
    }
    let n = m.len();
    let mut i: usize = 0;
    while i < n
        invariant
            n == m.entries().len(),
            i <= n,
            m.wf(),
            u == unspent_view(*m),
            forall|k: int|
                0 <= k < i && #[trigger] m.entries()[k].0 != Hash32::spec_zero() ==> sum_at(
                    utxos_view(m.entries()[k].1@),
                    o,
                ) == 0,
        decreases n - i,
    {
        let e = m.entry_at(i);
        if !e.0.is_zero() {
            if !holds_nothing_at(&e.1, o) {
                proof {
                    m.lemma_position(i as int);
                    assert(u.contains_key(e.0));
                }
                return false;
            }
        }
        i = i + 1;
    }
    proof {
        assert forall|a: AssetId|
            a != Hash32::spec_zero() && #[trigger] u.contains_key(a) implies sum_at(u[a], o) == 0 by {
            let k = choose|k: int| 0 <= k < m.entries().len() && m.entries()[k].0 == a;
            m.lemma_position(k);
        }
    }
    true
}

/// Merges `new` into `m`, the entries of `new` taking precedence.
fn merge_mine_info(m: &mut SortedMap<BlockPos, Txid>, new: &SortedMap<BlockPos, Txid>)
    requires
        old(m).wf(),
        new.wf(),
    ensures
        final(m).wf(),
        final(m)@ == old(m)@.union_prefer_right(new@),
{
    proof {
        new.lemma_view_entries();
    }
    let n = new.len();
    let mut i: usize = 0;
    while i < n
        invariant
            n == new.entries().len(),
            i <= n,
            new.wf(),
            m.wf(),
            forall|p: BlockPos| #[trigger] m@.contains_key(p) <==> (old(m)@.contains_key(p) || exists|k: int| 0 <= k < i && new.entries()[k].0 == p),
            forall|p: BlockPos| #[trigger] m@.contains_key(p) ==> m@[p] == (if exists|k: int| 0 <= k < i && new.entries()[k].0 == p { new@[p] } else { old(m)@[p] }),
        decreases n - i,
    {
        let e = new.entry_at(i);
        proof {
            new.lemma_position(i as int);
        }
        m.insert(e.0, e.1);
        proof {
            assert forall|p: BlockPos| #[trigger] m@.contains_key(p) implies m@[p] == (if exists|k: int| 0 <= k < i + 1 && new.entries()[k].0 == p { new@[p] } else { old(m)@[p] }) by {
                if p != e.0 {
                    if exists|k: int| 0 <= k < i + 1 && new.entries()[k].0 == p {
                        let k = choose|k: int| 0 <= k < i + 1 && new.entries()[k].0 == p;
                        assert(k < i);
                    }
                } else {
                    assert(new.entries()[i as int].0 == p);
                }
            }
            assert forall|p: BlockPos| #[trigger] m@.contains_key(p) <==> (old(m)@.contains_key(p) || exists|k: int| 0 <= k < i + 1 && new.entries()[k].0 == p) by {
                if p == e.0 {
                    assert(new.entries()[i as int].0 == p);
                } else if exists|k: int| 0 <= k < i + 1 && new.entries()[k].0 == p {
                    let k = choose|k: int| 0 <= k < i + 1 && new.entries()[k].0 == p;
                    assert(k < i);
                }
            }
        }
        i = i + 1;
    }
    assert(m@ =~= old(m)@.union_prefer_right(new@));
}

/// The outputs of each asset that hold a positive amount, each kept once.
fn positive_unspent(unspent: &SortedMap<AssetId, Vec<Utxo>>) -> (r: SortedMap<AssetId, Vec<Utxo>>)
    requires
        unspent.wf(),
    ensures
        unspent_wf(r),
        r@.dom() == unspent@.dom(),
        forall|a: AssetId| #[trigger]
            r@.contains_key(a) ==> utxos_view(r@[a]@) == dedup_positive(utxos_view(unspent@[a]@)),
{
    proof {
        unspent.lemma_view_entries();
    }
    let mut r: SortedMap<AssetId, Vec<Utxo>> = SortedMap::new();
    let n = unspent.len();
    let mut i: usize = 0;
    while i < n
        invariant
            n == unspent.entries().len(),
            i <= n,
            unspent.wf(),
            unspent_wf(r),
            forall|a: AssetId| #[trigger] r@.contains_key(a) <==> exists|k: int| 0 <= k < i && unspent.entries()[k].0 == a,
            forall|a: AssetId| #[trigger]
                r@.contains_key(a) ==> unspent@.contains_key(a) && utxos_view(r@[a]@) == dedup_positive(utxos_view(unspent@[a]@)),
        decreases n - i,
    {
        let e = unspent.entry_at(i);
        proof {
            unspent.lemma_position(i as int);
        }
        let v = dedup_positive_utxos(&e.1);
        r.insert(e.0, v);
        proof {
            assert forall|a: AssetId| #[trigger] r@.contains_key(a) <==> exists|k: int| 0 <= k < i + 1 && unspent.entries()[k].0 == a by {
                if a == e.0 {
                    assert(unspent.entries()[i as int].0 == a);
                } else if exists|k: int| 0 <= k < i + 1 && unspent.entries()[k].0 == a {
                    let k = choose|k: int| 0 <= k < i + 1 && unspent.entries()[k].0 == a;
                    assert(k < i);
                }
            }
        }
        i = i + 1;
    }
    assert(r@.dom() =~= unspent@.dom());
    r
}

proof fn lemma_dedup_positive_distinct(s: Seq<UtxoV>)
    ensures
        dedup_positive(s).no_duplicates(),
    decreases s.len(),
{
    if s.len() > 0 {
        lemma_dedup_positive_distinct(s.drop_last());
    }
}

/// The outputs of `v` holding a positive amount, each kept once.
fn dedup_positive_utxos(v: &Vec<Utxo>) -> (r: Vec<Utxo>)
    ensures
        utxos_view(r@) == dedup_positive(utxos_view(v@)),
        utxos_view(r@).no_duplicates(),
{
    let ghost s = utxos_view(v@);
    let mut r: Vec<Utxo> = Vec::new();
    let mut j: usize = 0;
    while j < v.len()
        invariant
            j <= v@.len(),
            s == utxos_view(v@),
            utxos_view(r@) == dedup_positive(s.take(j as int)),
        decreases v@.len() - j,
    {
        let x = &v[j];
        proof {
            assert(s.take(j + 1).drop_last() =~= s.take(j as int));
            assert(s.take(j + 1).last() == x@);
        }
        if x.value > 0 && !contains_utxo(&r, x) {
            r.push(x.clone());
            assert(utxos_view(r@) =~= dedup_positive(s.take(j + 1)));
        } else {
            assert(utxos_view(r@) =~= dedup_positive(s.take(j + 1)));
        }
        j = j + 1;
    }
    assert(s.take(j as int) =~= s);
    proof {
        lemma_dedup_positive_distinct(s);
    }
    r
}

/// Copies an unspent map.
fn clone_unspent(m: &SortedMap<AssetId, Vec<Utxo>>) -> (r: SortedMap<AssetId, Vec<Utxo>>)
    requires
        unspent_wf(*m),
    ensures
        unspent_wf(r),
        r@.dom() == m@.dom(),
        forall|a: AssetId| #[trigger] r@.contains_key(a) ==> r@[a]@ == m@[a]@,
{
    proof {
        m.lemma_view_entries();
    }
    let mut r: SortedMap<AssetId, Vec<Utxo>> = SortedMap::new();
    let n = m.len();
    let mut i: usize = 0;
    while i < n
        invariant
            n == m.entries().len(),
            i <= n,
            unspent_wf(*m),
            r.wf(),
            forall|a: AssetId| #[trigger] r@.contains_key(a) <==> exists|k: int| 0 <= k < i && m.entries()[k].0 == a,
            forall|a: AssetId| #[trigger] r@.contains_key(a) ==> m@.contains_key(a) && r@[a]@ == m@[a]@,
        decreases n - i,
    {
        let e = m.entry_at(i);
        proof {
            m.lemma_position(i as int);
        }
        let v = clone_utxos(&e.1);
        r.insert(e.0, v);
        proof {
            assert forall|a: AssetId| #[trigger] r@.contains_key(a) <==> exists|k: int| 0 <= k < i + 1 && m.entries()[k].0 == a by {
                if a == e.0 {
                    assert(m.entries()[i as int].0 == a);
                } else if exists|k: int| 0 <= k < i + 1 && m.entries()[k].0 == a {
                    let k = choose|k: int| 0 <= k < i + 1 && m.entries()[k].0 == a;
                    assert(k < i);
                }
            }
        }
        i = i + 1;
    }
    assert(r@.dom() =~= m@.dom());
    assert forall|a: AssetId| #[trigger] r@.contains_key(a) implies utxos_view(r@[a]@).no_duplicates() by {
        assert(utxos_view(r@[a]@) == utxos_view(m@[a]@));
    }
    r
}

} // verus!
