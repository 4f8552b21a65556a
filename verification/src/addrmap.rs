//! The registry of used addresses of a wallet contract: each address with the
//! derivation index it was derived at.

use vstd::prelude::*;

verus! {

/// Largest unhardened BIP-32 child index (2^31 - 1).
pub const UNHARDENED_MAX: u32 = 0x7fff_ffff;

/// `s` lists the keys of `m`, each exactly once.
pub open spec fn lists_keys(s: Seq<String>, m: Map<Seq<char>, u32>) -> bool {
    &&& forall|i: int| 0 <= i < s.len() ==> #[trigger] m.contains_key(s[i]@)
    &&& forall|a: Seq<char>| #[trigger] m.contains_key(a) ==> exists|i: int| 0 <= i < s.len() && s[i]@ == a
    &&& forall|i: int, j: int| 0 <= i < j < s.len() ==> #[trigger] s[i]@ != #[trigger] s[j]@
}


/// Addresses mapped to their derivation indexes; an address occurs at most
/// once.
pub struct AddressMap {
    entries: Vec<(String, u32)>,
}

impl AddressMap {
    pub closed spec fn entries(&self) -> Seq<(String, u32)> {
        self.entries@
    }

    /// No address occurs twice, and every index is an unhardened one.
    pub open spec fn wf(&self) -> bool {
        &&& forall|i: int, j: int|
            0 <= i < j < self.entries().len() ==> #[trigger] self.entries()[i].0@
                != #[trigger] self.entries()[j].0@
        &&& forall|i: int| 0 <= i < self.entries().len() ==> #[trigger] self.entries()[i].1 <= UNHARDENED_MAX
    }

    pub open spec fn has(&self, a: Seq<char>) -> bool {
        exists|i: int| 0 <= i < self.entries().len() && #[trigger] self.entries()[i].0@ == a
    }

    pub open spec fn pos(&self, a: Seq<char>) -> int {
        choose|i: int| 0 <= i < self.entries().len() && #[trigger] self.entries()[i].0@ == a
    }

    /// Addresses (as character strings) mapped to derivation indexes.
    pub open spec fn view(&self) -> Map<Seq<char>, u32> {
        Map::new(|a: Seq<char>| self.has(a), |a: Seq<char>| self.entries()[self.pos(a)].1)
    }

    proof fn lemma_pos(&self, i: int)
        requires
            self.wf(),
            0 <= i < self.entries().len(),
        ensures
            self@.contains_key(self.entries()[i].0@),
            self.pos(self.entries()[i].0@) == i,
            self@[self.entries()[i].0@] == self.entries()[i].1,
    {
        let a = self.entries()[i].0@;
        assert(self.has(a));
        let p = self.pos(a);
        if p != i {
            if p < i {
                assert(self.entries()[p].0@ != self.entries()[i].0@);
            } else {
                assert(self.entries()[i].0@ != self.entries()[p].0@);
            }
        }
    }

    /// Every stored index is unhardened.
    pub proof fn lemma_values_unhardened(&self)
        requires
            self.wf(),
        ensures
            forall|a: Seq<char>| #[trigger] self@.contains_key(a) ==> self@[a] <= UNHARDENED_MAX,
    {
        assert forall|a: Seq<char>| #[trigger] self@.contains_key(a) implies self@[a]
            <= UNHARDENED_MAX by {
            let i = self.pos(a);
            assert(self.entries()[i].1 <= UNHARDENED_MAX);
        }
    }

    pub fn new() -> (m: Self)
        ensures
            m.wf(),
            m@ == Map::<Seq<char>, u32>::empty(),
    {
        let m = AddressMap { entries: Vec::new() };
        assert(m@ =~= Map::<Seq<char>, u32>::empty());
        m
    }

    fn find(&self, a: &String) -> (r: Option<usize>)
        requires
            self.wf(),
        ensures
            match r {
                Some(p) => p < self.entries().len() && self.entries()[p as int].0@ == a@,
                None => !self@.contains_key(a@),
            },
    {
        let mut i: usize = 0;
        while i < self.entries.len()
            invariant
                i <= self.entries@.len(),
                self.entries@ == self.entries(),
                forall|j: int| 0 <= j < i ==> #[trigger] self.entries()[j].0@ != a@,
            decreases self.entries@.len() - i,
        {
            if self.entries[i].0 == *a {
                return Some(i);
            }
            i = i + 1;
        }
        None
    }

    /// Derivation index of an address.
    pub fn get(&self, a: &String) -> (r: Option<u32>)
        requires
            self.wf(),
        ensures
            r == (if self@.contains_key(a@) {
                Some(self@[a@])
            } else {
                None::<u32>
            }),
    {
        match self.find(a) {
            Some(p) => {
                proof {
                    self.lemma_pos(p as int);
                }
                Some(self.entries[p].1)
            },
            None => None,
        }
    }

    /// Records `a` at index `index`, replacing any earlier index. Returns
    /// whether the address was new.
    pub fn insert(&mut self, a: String, index: u32) -> (r: bool)
        requires
            old(self).wf(),
            index <= UNHARDENED_MAX,
        ensures
            final(self).wf(),
            final(self)@ == old(self)@.insert(a@, index),
            r == !old(self)@.contains_key(a@),
    {
        let ghost old_entries = self.entries@;
        let ghost av = a@;
        match self.find(&a) {
            Some(p) => {
                proof {
                    old(self).lemma_pos(p as int);
                }
                self.entries.set(p, (a, index));
                proof {
                    assert forall|i: int, j: int|
                        0 <= i < j < self.entries().len() implies #[trigger] self.entries()[i].0@
                        != #[trigger] self.entries()[j].0@ by {
                        assert(old_entries[i].0@ != old_entries[j].0@);
                    }
                    assert(self@ =~= old(self)@.insert(av, index)) by {
                        assert forall|b: Seq<char>| #[trigger] self@.contains_key(b) implies old(
                            self,
                        )@.insert(av, index).contains_key(b) && self@[b] == old(self)@.insert(
                            av,
                            index,
                        )[b] by {
                            let i = self.pos(b);
                            self.lemma_pos(i);
                            if i != p {
                                old(self).lemma_pos(i);
                            }
                        }
                        assert forall|b: Seq<char>| #[trigger] old(self)@.insert(
                            av,
                            index,
                        ).contains_key(b) implies self@.contains_key(b) by {
                            if b != av {
                                let i = old(self).pos(b);
                                assert(self.entries()[i].0@ == b);
                            } else {
                                assert(self.entries()[p as int].0@ == b);
                            }
                        }
                    }
                }
                false
            },
            None => {
                self.entries.push((a, index));
                proof {
                    assert forall|i: int, j: int|
                        0 <= i < j < self.entries().len() implies #[trigger] self.entries()[i].0@
                        != #[trigger] self.entries()[j].0@ by {
                        if j < old_entries.len() {
                            assert(old_entries[i].0@ != old_entries[j].0@);
                        } else {
                            assert(old(self).has(old_entries[i].0@));
                        }
                    }
                    assert(self@ =~= old(self)@.insert(av, index)) by {
                        assert forall|b: Seq<char>| #[trigger] self@.contains_key(b) implies old(
                            self,
                        )@.insert(av, index).contains_key(b) && self@[b] == old(self)@.insert(
                            av,
                            index,
                        )[b] by {
                            let i = self.pos(b);
                            self.lemma_pos(i);
                            if i < old_entries.len() {
                                old(self).lemma_pos(i);
                            }
                        }
                        assert forall|b: Seq<char>| #[trigger] old(self)@.insert(
                            av,
                            index,
                        ).contains_key(b) implies self@.contains_key(b) by {
                            if b != av {
                                let i = old(self).pos(b);
                                assert(self.entries()[i].0@ == b);
                            } else {
                                assert(self.entries()[old_entries.len() as int].0@ == b);
                            }
                        }
                    }
                }
                true
            },
        }
    }

    /// Forgets an address. Returns whether it was present.
    pub fn remove(&mut self, a: &String) -> (r: bool)
        requires
            old(self).wf(),
        ensures
            final(self).wf(),
            final(self)@ == old(self)@.remove(a@),
            r == old(self)@.contains_key(a@),
    {
        let ghost old_entries = self.entries@;
        match self.find(a) {
            None => {
                assert(self@ =~= old(self)@.remove(a@));
                false
            },
            Some(p) => {
                proof {
                    old(self).lemma_pos(p as int);
                }
                self.entries.remove(p);
                proof {
                    assert(self.entries@ =~= old_entries.remove(p as int));
                    assert forall|i: int, j: int|
                        0 <= i < j < self.entries().len() implies #[trigger] self.entries()[i].0@
                        != #[trigger] self.entries()[j].0@ by {
                        let oi = if i < p { i } else { i + 1 };
                        let oj = if j < p { j } else { j + 1 };
                        assert(old_entries[oi].0@ != old_entries[oj].0@);
                    }
                    assert forall|i: int| 0 <= i < self.entries().len() implies #[trigger] self.entries()[i].1
                        <= UNHARDENED_MAX by {
                        let oi = if i < p { i } else { i + 1 };
                        assert(old_entries[oi].1 <= UNHARDENED_MAX);
                    }
                    assert(self@ =~= old(self)@.remove(a@)) by {
                        assert forall|b: Seq<char>| #[trigger] self@.contains_key(b) implies old(
                            self,
                        )@.remove(a@).contains_key(b) && self@[b] == old(self)@.remove(a@)[b] by {
                            let i = self.pos(b);
                            self.lemma_pos(i);
                            let oi = if i < p { i } else { i + 1 };
                            old(self).lemma_pos(oi);
                            assert(oi != p);
                        }
                        assert forall|b: Seq<char>| #[trigger] old(self)@.remove(a@).contains_key(
                            b,
                        ) implies self@.contains_key(b) by {
                            let i = old(self).pos(b);
                            assert(i != p);
                            if i < p {
                                assert(self.entries()[i].0@ == b);
                            } else {
                                assert(self.entries()[i - 1].0@ == b);
                            }
                        }
                    }
                }
                true
            },
        }
    }

    /// The largest derivation index in use, if any address is recorded.
    pub fn max_index(&self) -> (r: Option<u32>)
        requires
            self.wf(),
        ensures
            match r {
                None => self@.dom() =~= Set::<Seq<char>>::empty(),
                Some(m) => self@.values().contains(m) && forall|a: Seq<char>| #[trigger]
                    self@.contains_key(a) ==> self@[a] <= m,
            },
    {
        let mut best: Option<u32> = None;
        let mut i: usize = 0;
        while i < self.entries.len()
            invariant
                i <= self.entries@.len(),
                self.entries@ == self.entries(),
                self.wf(),
                match best {
                    None => i == 0,
                    Some(m) => (exists|j: int| 0 <= j < i && self.entries()[j].1 == m) && forall|
                        j: int,
                    | 0 <= j < i ==> #[trigger] self.entries()[j].1 <= m,
                },
            decreases self.entries@.len() - i,
        {
            let v = self.entries[i].1;
            best = match best {
                None => Some(v),
                Some(m) => if v > m {
                    Some(v)
                } else {
                    Some(m)
                },
            };
            i = i + 1;
        }
        proof {
            match best {
                None => {
                    assert forall|a: Seq<char>| !#[trigger] self@.contains_key(a) by {
                    }
                    assert(self@.dom() =~= Set::<Seq<char>>::empty());
                },
                Some(m) => {
                    let j = choose|j: int| 0 <= j < self.entries().len() && self.entries()[j].1 == m;
                    self.lemma_pos(j);
                    assert(self@.values().contains(m));
                    assert forall|a: Seq<char>| #[trigger] self@.contains_key(a) implies self@[a]
                        <= m by {
                        let p = self.pos(a);
                        assert(self.entries()[p].1 <= m);
                    }
                },
            }
        }
        best
    }

    /// All addresses, without repetitions.
    pub fn addresses(&self) -> (r: Vec<String>)
        requires
            self.wf(),
        ensures
            r@.len() == self@.dom().len(),
            lists_keys(r@, self@),
    {
        let mut r: Vec<String> = Vec::new();
        let mut i: usize = 0;
        while i < self.entries.len()
            invariant
                i <= self.entries@.len(),
                self.entries@ == self.entries(),
                self.wf(),
                r@.len() == i,
                forall|j: int| 0 <= j < i ==> #[trigger] r@[j]@ == self.entries()[j].0@,
            decreases self.entries@.len() - i,
        {
            r.push(self.entries[i].0.clone());
            i = i + 1;
        }
        proof {
            assert forall|k: int| 0 <= k < r@.len() implies #[trigger] self@.contains_key(r@[k]@) by {
                self.lemma_pos(k);
            }
            assert forall|a: Seq<char>| #[trigger] self@.contains_key(a) implies exists|k: int|
                0 <= k < r@.len() && r@[k]@ == a by {
                let p = self.pos(a);
                assert(r@[p]@ == a);
            }
            assert forall|k: int, j: int| 0 <= k < j < r@.len() implies #[trigger] r@[k]@
                != #[trigger] r@[j]@ by {
                assert(self.entries()[k].0@ != self.entries()[j].0@);
            }
            self.lemma_dom_len();
        }
        r
    }

    /// The recorded addresses form a finite set.
    pub proof fn lemma_finite(&self)
        requires
            self.wf(),
        ensures
            self@.dom().finite(),
    {
        self.lemma_dom_len();
    }

    proof fn lemma_dom_len(&self)
        requires
            self.wf(),
        ensures
            self@.dom().len() == self.entries().len(),
            self@.dom().finite(),
    {
        let keys = self.entries().map_values(|e: (String, u32)| e.0@);
        assert forall|i: int, j: int| 0 <= i < j < keys.len() implies keys[i] != keys[j] by {
            assert(self.entries()[i].0@ != self.entries()[j].0@);
        }
        assert(keys.no_duplicates());
        assert(self@.dom() =~= keys.to_set()) by {
            assert forall|a: Seq<char>| #[trigger] self@.dom().contains(a) implies keys.to_set().contains(a) by {
                let p = self.pos(a);
                assert(keys[p] == a);
            }
            assert forall|a: Seq<char>| #[trigger] keys.to_set().contains(a) implies self@.dom().contains(a) by {
                let p = choose|p: int| 0 <= p < keys.len() && keys[p] == a;
                assert(self.entries()[p].0@ == a);
            }
        }
        keys.unique_seq_to_set();
    }

    /// The addresses with their derivation indexes, each address once.
    pub fn pairs(&self) -> (r: Vec<(String, u32)>)
        requires
            self.wf(),
        ensures
            r@.len() == self@.dom().len(),
            forall|i: int| 0 <= i < r@.len() ==> #[trigger] self@.contains_key(r@[i].0@) && self@[r@[i].0@] == r@[i].1,
            forall|a: Seq<char>| #[trigger] self@.contains_key(a) ==> exists|i: int| 0 <= i < r@.len() && r@[i].0@ == a,
    {
        let mut r: Vec<(String, u32)> = Vec::new();
        let mut i: usize = 0;
        while i < self.entries.len()
            invariant
                i <= self.entries@.len(),
                self.entries@ == self.entries(),
                self.wf(),
                r@.len() == i,
                forall|j: int| 0 <= j < i ==> (#[trigger] r@[j]).0@ == self.entries()[j].0@ && r@[j].1 == self.entries()[j].1,
            decreases self.entries@.len() - i,
        {
            r.push((self.entries[i].0.clone(), self.entries[i].1));
            i = i + 1;
        }
        proof {
            assert forall|k: int| 0 <= k < r@.len() implies #[trigger] self@.contains_key(r@[k].0@) && self@[r@[k].0@] == r@[k].1 by {
                self.lemma_pos(k);
            }
            assert forall|a: Seq<char>| #[trigger] self@.contains_key(a) implies exists|k: int| 0 <= k < r@.len() && r@[k].0@ == a by {
                let p = self.pos(a);
                assert(r@[p].0@ == a);
            }
            self.lemma_dom_len();
        }
        r
    }

    /// All derivation indexes in use, without repetitions.
    pub fn indexes(&self) -> (r: Vec<u32>)
        requires
            self.wf(),
        ensures
            r@.to_set() == self@.values(),
            r@.no_duplicates(),
    {
        let mut r: Vec<u32> = Vec::new();
        let mut i: usize = 0;
        while i < self.entries.len()
            invariant
                i <= self.entries@.len(),
                self.entries@ == self.entries(),
                self.wf(),
                r@.no_duplicates(),
                forall|k: int| 0 <= k < r@.len() ==> exists|j: int| 0 <= j < i && #[trigger] r@[k] == self.entries()[j].1,
                forall|j: int| 0 <= j < i ==> #[trigger] r@.contains(self.entries()[j].1),
            decreases self.entries@.len() - i,
        {
            let v = self.entries[i].1;
            let ghost r_before = r@;
            let present = vec_contains_u32(&r, v);
            if !present {
                r.push(v);
                assert(r@[r@.len() - 1] == v);
            }
            proof {
                assert forall|j: int| 0 <= j < i + 1 implies #[trigger] r@.contains(self.entries()[j].1) by {
                    if j < i {
                        assert(r_before.contains(self.entries()[j].1));
                        let m = choose|m: int| 0 <= m < r_before.len() && r_before[m] == self.entries()[j].1;
                        assert(r@[m] == r_before[m]);
                    } else {
                        if present {
                            let m = choose|m: int| 0 <= m < r_before.len() && r_before[m] == v;
                            assert(r@[m] == v);
                        } else {
                            assert(r@[r@.len() - 1] == v);
                        }
                    }
                }
            }
            i = i + 1;
        }
        proof {
            assert(r@.to_set() =~= self@.values()) by {
                assert forall|v: u32| #[trigger] r@.to_set().contains(v) implies self@.values().contains(v) by {
                    let k = choose|k: int| 0 <= k < r@.len() && r@[k] == v;
                    let j = choose|j: int| 0 <= j < self.entries().len() && r@[k] == self.entries()[j].1;
                    self.lemma_pos(j);
                    assert(self@.contains_key(self.entries()[j].0@));
                }
                assert forall|v: u32| #[trigger] self@.values().contains(v) implies r@.to_set().contains(v) by {
                    let a = choose|a: Seq<char>| #[trigger] self@.contains_key(a) && self@[a] == v;
                    let p = self.pos(a);
                    assert(r@.contains(self.entries()[p].1));
                }
            }
        }
        r
    }
}

/// Whether `v` occurs in `s`.
pub fn vec_contains_u32(s: &Vec<u32>, v: u32) -> (r: bool)
    ensures
        r == s@.contains(v),
{
    let mut i: usize = 0;
    while i < s.len()
        invariant
            i <= s@.len(),
            forall|j: int| 0 <= j < i ==> s@[j] != v,
        decreases s@.len() - i,
    {
        if s[i] == v {
            return true;
        }
        i = i + 1;
    }
    false
}

impl Clone for AddressMap {
    fn clone(&self) -> (r: Self)
        ensures
            r.entries() =~= self.entries(),
            r@ == self@,
    {
        let mut entries: Vec<(String, u32)> = Vec::new();
        let mut i: usize = 0;
        while i < self.entries.len()
            invariant
                i <= self.entries@.len(),
                entries@ == self.entries@.subrange(0, i as int),
            decreases self.entries@.len() - i,
        {
            let e = &self.entries[i];
            entries.push((e.0.clone(), e.1));
            i = i + 1;
            assert(entries@ =~= self.entries@.subrange(0, i as int));
        }
        assert(entries@ =~= self.entries@);
        let r = AddressMap { entries };
        assert(r@ =~= self@);
        r
    }
}

} // verus!
