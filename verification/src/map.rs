//! Ordered association maps, the in-memory form of the ordered maps that the
//! wallet storage and cache keep (contracts by id, operations by txid, ...).

use vstd::prelude::*;

verus! {

/// Keys with a strict total order and executable comparison.
pub trait KeyOrd: Copy + Sized {
    spec fn key_lt(self, other: Self) -> bool;

    proof fn lemma_lt_irreflexive(a: Self)
        ensures
            !a.key_lt(a),
    ;

    proof fn lemma_lt_transitive(a: Self, b: Self, c: Self)
        requires
            a.key_lt(b),
            b.key_lt(c),
        ensures
            a.key_lt(c),
    ;

    proof fn lemma_lt_total(a: Self, b: Self)
        ensures
            a == b || a.key_lt(b) || b.key_lt(a),
    ;

    fn key_less(&self, other: &Self) -> (r: bool)
        ensures
            r == self.key_lt(*other),
    ;

    fn key_same(&self, other: &Self) -> (r: bool)
        ensures
            r == (*self == *other),
    ;
}

impl KeyOrd for u32 {
    open spec fn key_lt(self, other: Self) -> bool {
        self < other
    }

    proof fn lemma_lt_irreflexive(a: Self) {
    }

    proof fn lemma_lt_transitive(a: Self, b: Self, c: Self) {
    }

    proof fn lemma_lt_total(a: Self, b: Self) {
    }

    fn key_less(&self, other: &Self) -> (r: bool) {
        *self < *other
    }

    fn key_same(&self, other: &Self) -> (r: bool) {
        *self == *other
    }
}

/// A map whose entries are kept in strictly increasing key order.
pub struct SortedMap<K, V> {
    entries: Vec<(K, V)>,
}

impl<K: KeyOrd, V> SortedMap<K, V> {
    /// The entries, in increasing key order.
    pub closed spec fn entries(&self) -> Seq<(K, V)> {
        self.entries@
    }

    /// The keys, in increasing order.
    pub open spec fn key_seq(&self) -> Seq<K> {
        self.entries().map_values(|e: (K, V)| e.0)
    }

    /// The values, in the order of their keys.
    pub open spec fn value_seq(&self) -> Seq<V> {
        self.entries().map_values(|e: (K, V)| e.1)
    }

    /// Keys strictly increase along the entries.
    pub open spec fn wf(&self) -> bool {
        forall|i: int, j: int|
            0 <= i < j < self.entries().len() ==> #[trigger] self.entries()[i].0.key_lt(
                #[trigger] self.entries()[j].0,
            )
    }

    pub open spec fn has_key(&self, k: K) -> bool {
        exists|i: int| 0 <= i < self.entries().len() && #[trigger] self.entries()[i].0 == k
    }

    pub open spec fn position(&self, k: K) -> int {
        choose|i: int| 0 <= i < self.entries().len() && #[trigger] self.entries()[i].0 == k
    }

    /// The mathematical map that the entries stand for.
    pub open spec fn view(&self) -> Map<K, V> {
        Map::new(|k: K| self.has_key(k), |k: K| self.entries()[self.position(k)].1)
    }

    /// In a well-formed map, a key occurs at one position only.
    pub proof fn lemma_position(&self, i: int)
        requires
            self.wf(),
            0 <= i < self.entries().len(),
        ensures
            self.has_key(self.entries()[i].0),
            self.position(self.entries()[i].0) == i,
            self@.contains_key(self.entries()[i].0),
            self@[self.entries()[i].0] == self.entries()[i].1,
    {
        let k = self.entries()[i].0;
        assert(self.has_key(k));
        let p = self.position(k);
        if p != i {
            if p < i {
                assert(self.entries()[p].0.key_lt(self.entries()[i].0));
            } else {
                assert(self.entries()[i].0.key_lt(self.entries()[p].0));
            }
            K::lemma_lt_irreflexive(k);
        }
    }

    pub proof fn lemma_view_entries(&self)
        requires
            self.wf(),
        ensures
            forall|i: int|
                0 <= i < self.entries().len() ==> #[trigger] self@.contains_key(self.entries()[i].0)
                    && self@[self.entries()[i].0] == self.entries()[i].1,
            forall|k: K| #[trigger]
                self@.contains_key(k) <==> exists|i: int|
                    0 <= i < self.entries().len() && self.entries()[i].0 == k,
    {
        assert forall|i: int| 0 <= i < self.entries().len() implies #[trigger] self@.contains_key(
            self.entries()[i].0,
        ) && self@[self.entries()[i].0] == self.entries()[i].1 by {
            self.lemma_position(i);
        }
    }

    /// An empty map.
    pub fn new() -> (m: Self)
        ensures
            m.wf(),
            m.entries().len() == 0,
            m@ == Map::<K, V>::empty(),
    {
        let m = SortedMap { entries: Vec::new() };
        assert(m@ =~= Map::<K, V>::empty());
        m
    }

    pub fn len(&self) -> (n: usize)
        ensures
            n == self.entries().len(),
    {
        self.entries.len()
    }

    /// The first position whose key is not below `k`.
    fn lower_bound(&self, k: &K) -> (p: usize)
        requires
            self.wf(),
        ensures
            p <= self.entries().len(),
            forall|i: int| 0 <= i < p ==> #[trigger] self.entries()[i].0.key_lt(*k),
            p < self.entries().len() ==> !self.entries()[p as int].0.key_lt(*k),
    {
        let mut i: usize = 0;
        while i < self.entries.len()
            invariant
                i <= self.entries@.len(),
                self.entries@ == self.entries(),
                forall|j: int| 0 <= j < i ==> #[trigger] self.entries()[j].0.key_lt(*k),
            decreases self.entries@.len() - i,
        {
            if !self.entries[i].0.key_less(k) {
                return i;
            }
            i = i + 1;
        }
        i
    }

    /// Position of `k`, if present.
    pub fn find(&self, k: &K) -> (r: Option<usize>)
        requires
            self.wf(),
        ensures
            match r {
                Some(p) => p < self.entries().len() && self.entries()[p as int].0 == *k,
                None => !self@.contains_key(*k),
            },
    {
        let p = self.lower_bound(k);
        if p < self.entries.len() && self.entries[p].0.key_same(k) {
            Some(p)
        } else {
            proof {
                if self.has_key(*k) {
                    let q = self.position(*k);
                    if q < p {
                        assert(self.entries()[q].0.key_lt(*k));
                        K::lemma_lt_irreflexive(*k);
                    } else if q > p {
                        assert(self.entries()[p as int].0.key_lt(self.entries()[q].0));
                        K::lemma_lt_total(self.entries()[p as int].0, *k);
                    }
                }
            }
            None
        }
    }

    /// The value stored under `k`.
    pub fn get(&self, k: &K) -> (r: Option<&V>)
        requires
            self.wf(),
        ensures
            match r {
                Some(v) => self@.contains_key(*k) && self@[*k] == *v,
                None => !self@.contains_key(*k),
            },
    {
        match self.find(k) {
            Some(p) => {
                proof {
                    self.lemma_position(p as int);
                }
                Some(&self.entries[p].1)
            },
            None => None,
        }
    }

    pub fn contains_key(&self, k: &K) -> (r: bool)
        requires
            self.wf(),
        ensures
            r == self@.contains_key(*k),
    {
        match self.find(k) {
            Some(p) => {
                proof {
                    self.lemma_position(p as int);
                }
                true
            },
            None => false,
        }
    }

    /// The entry at a position.
    pub fn entry_at(&self, i: usize) -> (r: &(K, V))
        requires
            i < self.entries().len(),
        ensures
            *r == self.entries()[i as int],
    {
        &self.entries[i]
    }

    /// Inserts `v` under `k`, returning the value that was stored there before.
    pub fn insert(&mut self, k: K, v: V) -> (r: Option<V>)
        requires
            old(self).wf(),
        ensures
            final(self).wf(),
            final(self)@ == old(self)@.insert(k, v),
            match r {
                Some(o) => old(self)@.contains_key(k) && old(self)@[k] == o,
                None => !old(self)@.contains_key(k),
            },
            old(self)@.contains_key(k) ==> final(self).entries().len() == old(self).entries().len(),
            !old(self)@.contains_key(k) ==> final(self).entries().len() == old(self).entries().len()
                + 1,
    {
        let ghost old_entries = self.entries@;
        proof {
            self.lemma_view_entries();
        }
        let p = self.lower_bound(&k);
        if p < self.entries.len() && self.entries[p].0.key_same(&k) {
            let old_entry = self.entries.remove(p);
            self.entries.insert(p, (k, v));
            proof {
                assert(self.entries@ =~= old_entries.update(p as int, (k, v)));
                assert forall|i: int, j: int| 0 <= i < j < self.entries().len() implies #[trigger] self.entries()[i].0.key_lt(
                    #[trigger] self.entries()[j].0,
                ) by {
                    assert(old_entries[i].0.key_lt(old_entries[j].0));
                }
                self.lemma_view_entries();
                assert(self@ =~= old(self)@.insert(k, v)) by {
                    assert forall|kk: K| #[trigger] self@.contains_key(kk) implies old(self)@.insert(
                        k,
                        v,
                    ).contains_key(kk) && self@[kk] == old(self)@.insert(k, v)[kk] by {
                        let i = choose|i: int| 0 <= i < self.entries().len() && self.entries()[i].0 == kk;
                        if i != p {
                            old(self).lemma_position(i);
                        }
                    }
                    assert forall|kk: K| #[trigger] old(self)@.insert(k, v).contains_key(kk) implies self@.contains_key(kk) by {
                        if kk != k {
                            let i = choose|i: int| 0 <= i < old_entries.len() && old_entries[i].0 == kk;
                            assert(self.entries()[i].0 == kk);
                        } else {
                            assert(self.entries()[p as int].0 == kk);
                        }
                    }
                }
                old(self).lemma_position(p as int);
            }
            Some(old_entry.1)
        } else {
            self.entries.insert(p, (k, v));
            proof {
                assert(self.entries@ =~= old_entries.insert(p as int, (k, v)));
                if p < old_entries.len() {
                    K::lemma_lt_total(old_entries[p as int].0, k);
                }
                assert forall|i: int, j: int| 0 <= i < j < self.entries().len() implies #[trigger] self.entries()[i].0.key_lt(
                    #[trigger] self.entries()[j].0,
                ) by {
                    if i < p && j < p {
                        assert(old_entries[i].0.key_lt(old_entries[j].0));
                    } else if i < p && j == p {
                    } else if i < p && j > p {
                        assert(old_entries[i].0.key_lt(old_entries[j - 1].0));
                    } else if i == p {
                        if j - 1 > p {
                            assert(old_entries[p as int].0.key_lt(old_entries[j - 1].0));
                            K::lemma_lt_transitive(k, old_entries[p as int].0, old_entries[j - 1].0);
                        }
                    } else {
                        assert(old_entries[i - 1].0.key_lt(old_entries[j - 1].0));
                    }
                }
                self.lemma_view_entries();
                if old(self).has_key(k) {
                    let q = old(self).position(k);
                    if q < p {
                        assert(old_entries[q].0.key_lt(k));
                        K::lemma_lt_irreflexive(k);
                    } else if q > p {
                        assert(old_entries[p as int].0.key_lt(old_entries[q].0));
                    }
                }
                assert(self@ =~= old(self)@.insert(k, v)) by {
                    assert forall|kk: K| #[trigger] self@.contains_key(kk) implies old(self)@.insert(
                        k,
                        v,
                    ).contains_key(kk) && self@[kk] == old(self)@.insert(k, v)[kk] by {
                        let i = choose|i: int| 0 <= i < self.entries().len() && self.entries()[i].0 == kk;
                        if i < p {
                            old(self).lemma_position(i);
                        } else if i > p {
                            old(self).lemma_position(i - 1);
                        }
                    }
                    assert forall|kk: K| #[trigger] old(self)@.insert(k, v).contains_key(kk) implies self@.contains_key(kk) by {
                        if kk != k {
                            let i = choose|i: int| 0 <= i < old_entries.len() && old_entries[i].0 == kk;
                            if i < p {
                                assert(self.entries()[i].0 == kk);
                            } else {
                                assert(self.entries()[i + 1].0 == kk);
                            }
                        } else {
                            assert(self.entries()[p as int].0 == kk);
                        }
                    }
                }
            }
            None
        }
    }

    /// Removes the entry under `k`, returning its value.
    pub fn remove(&mut self, k: &K) -> (r: Option<V>)
        requires
            old(self).wf(),
        ensures
            final(self).wf(),
            final(self)@ == old(self)@.remove(*k),
            match r {
                Some(o) => old(self)@.contains_key(*k) && old(self)@[*k] == o,
                None => !old(self)@.contains_key(*k),
            },
    {
        let ghost old_entries = self.entries@;
        proof {
            self.lemma_view_entries();
        }
        match self.find(k) {
            None => {
                assert(self@ =~= old(self)@.remove(*k));
                None
            },
            Some(p) => {
                proof {
                    old(self).lemma_position(p as int);
                }
                let e = self.entries.remove(p);
                proof {
                    assert(self.entries@ =~= old_entries.remove(p as int));
                    assert forall|i: int, j: int| 0 <= i < j < self.entries().len() implies #[trigger] self.entries()[i].0.key_lt(
                        #[trigger] self.entries()[j].0,
                    ) by {
                        let oi = if i < p { i } else { i + 1 };
                        let oj = if j < p { j } else { j + 1 };
                        assert(old_entries[oi].0.key_lt(old_entries[oj].0));
                    }
                    self.lemma_view_entries();
                    assert(self@ =~= old(self)@.remove(*k)) by {
                        assert forall|kk: K| #[trigger] self@.contains_key(kk) implies old(self)@.remove(
                            *k,
                        ).contains_key(kk) && self@[kk] == old(self)@.remove(*k)[kk] by {
                            let i = choose|i: int| 0 <= i < self.entries().len() && self.entries()[i].0 == kk;
                            let oi = if i < p { i } else { i + 1 };
                            old(self).lemma_position(oi);
                            if kk == *k {
                                assert(oi != p);
                            }
                        }
                        assert forall|kk: K| #[trigger] old(self)@.remove(*k).contains_key(kk) implies self@.contains_key(kk) by {
                            let i = choose|i: int| 0 <= i < old_entries.len() && old_entries[i].0 == kk;
                            assert(i != p);
                            if i < p {
                                assert(self.entries()[i].0 == kk);
                            } else {
                                assert(self.entries()[i - 1].0 == kk);
                            }
                        }
                    }
                }
                Some(e.1)
            },
        }
    }

    /// References to the values, in increasing key order.
    pub fn values(&self) -> (r: Vec<&V>)
        ensures
            r@.len() == self.entries().len(),
            forall|i: int| 0 <= i < r@.len() ==> *#[trigger] r@[i] == self.entries()[i].1,
    {
        let mut r: Vec<&V> = Vec::new();
        let mut i: usize = 0;
        while i < self.entries.len()
            invariant
                i <= self.entries@.len(),
                self.entries@ == self.entries(),
                r@.len() == i,
                forall|j: int| 0 <= j < i ==> *#[trigger] r@[j] == self.entries()[j].1,
            decreases self.entries@.len() - i,
        {
            r.push(&self.entries[i].1);
            i = i + 1;
        }
        r
    }

    /// The keys, in increasing order.
    pub fn keys(&self) -> (r: Vec<K>)
        ensures
            r@ == self.key_seq(),
    {
        let mut r: Vec<K> = Vec::new();
        let mut i: usize = 0;
        while i < self.entries.len()
            invariant
                i <= self.entries@.len(),
                self.entries@ == self.entries(),
                r@ == self.key_seq().subrange(0, i as int),
            decreases self.entries@.len() - i,
        {
            r.push(self.entries[i].0);
            i = i + 1;
            assert(r@ =~= self.key_seq().subrange(0, i as int));
        }
        assert(r@ =~= self.key_seq());
        r
    }
}

} // verus!
