//! A map from strings to values that keeps its keys in ascending order, as a
//! `BTreeMap<String, V>` does.

use vstd::prelude::*;

use crate::text::{lemma_lt_asymmetric, lemma_lt_irreflexive, lemma_lt_total,
    lemma_lt_transitive, seq_lt, str_eq, str_less};

verus! {

pub struct SortedMap<V> {
    entries: Vec<(String, V)>,
}

impl<V: View> SortedMap<V> {
    /// Number of entries.
    pub closed spec fn size(&self) -> nat {
        self.entries@.len()
    }

    /// The `i`-th key in ascending order.
    pub closed spec fn key_at(&self, i: int) -> Seq<char> {
        self.entries@[i].0@
    }

    /// The value stored under the `i`-th key.
    pub closed spec fn val_at(&self, i: int) -> V::V {
        self.entries@[i].1@
    }

    /// Keys are strictly increasing, hence distinct.
    pub closed spec fn wf(&self) -> bool {
        forall|i: int, j: int|
            0 <= i < j < self.entries@.len() ==> seq_lt(
                #[trigger] self.entries@[i].0@,
                #[trigger] self.entries@[j].0@,
            )
    }

    pub closed spec fn has(&self, k: Seq<char>) -> bool {
        exists|i: int| 0 <= i < self.entries@.len() && #[trigger] self.entries@[i].0@ == k
    }

    closed spec fn index_of(&self, k: Seq<char>) -> int {
        choose|i: int| 0 <= i < self.entries@.len() && #[trigger] self.entries@[i].0@ == k
    }

    /// The map as keys to value views.
    pub closed spec fn map(&self) -> Map<Seq<char>, V::V> {
        Map::new(|k: Seq<char>| self.has(k), |k: Seq<char>| self.entries@[self.index_of(k)].1@)
    }

    proof fn lemma_unique(&self, i: int, j: int)
        requires
            self.wf(),
            0 <= i < self.entries@.len(),
            0 <= j < self.entries@.len(),
            self.entries@[i].0@ == self.entries@[j].0@,
        ensures
            i == j,
    {
        if i < j {
            lemma_lt_irreflexive(self.entries@[i].0@);
        } else if j < i {
            lemma_lt_irreflexive(self.entries@[i].0@);
        }
    }

    /// The `i`-th entry is what the map holds under the `i`-th key.
    pub proof fn lemma_entry(&self, i: int)
        requires
            self.wf(),
            0 <= i < self.size(),
        ensures
            self.map().contains_key(self.key_at(i)),
            self.map()[self.key_at(i)] == self.val_at(i),
    {
        let k = self.entries@[i].0@;
        assert(self.has(k));
        let j = self.index_of(k);
        self.lemma_unique(i, j);
    }

    /// Keys are listed in strictly increasing order, and a key is present iff
    /// it is listed.
    pub proof fn lemma_keys(&self)
        requires
            self.wf(),
        ensures
            forall|i: int, j: int|
                0 <= i < j < self.size() ==> seq_lt(#[trigger] self.key_at(i), #[trigger] self.key_at(j)),
            forall|k: Seq<char>|
                #[trigger] self.map().contains_key(k) <==> exists|i: int|
                    0 <= i < self.size() && #[trigger] self.key_at(i) == k,
            forall|i: int| 0 <= i < self.size() ==> #[trigger] self.map().contains_key(self.key_at(i)) && self.map()[self.key_at(i)] == self.val_at(i),
    {
        assert forall|i: int| 0 <= i < self.size() implies #[trigger] self.map().contains_key(self.key_at(i)) && self.map()[self.key_at(i)] == self.val_at(i) by {
            self.lemma_entry(i);
        }
        assert forall|k: Seq<char>|
            #[trigger] self.map().contains_key(k) implies exists|i: int|
                0 <= i < self.size() && #[trigger] self.key_at(i) == k by {
            let i = self.index_of(k);
            assert(self.key_at(i) == k);
        }
    }

    pub fn new() -> (r: Self)
        ensures
            r.wf(),
            r.map() == Map::<Seq<char>, V::V>::empty(),
            r.size() == 0,
    {
        let r = SortedMap { entries: Vec::new() };
        assert(r.map() =~= Map::<Seq<char>, V::V>::empty());
        r
    }

    pub fn len(&self) -> (r: usize)
        ensures
            r == self.size(),
    {
        self.entries.len()
    }

    /// Position of `k`, if present.
    fn find(&self, k: &str) -> (r: Option<usize>)
        requires
            self.wf(),
        ensures
            match r {
                Some(i) => i < self.size() && self.key_at(i as int) == k@,
                None => !self.map().contains_key(k@),
            },
    {
        let n = self.entries.len();
        let mut i: usize = 0;
        while i < n
            invariant
                n == self.entries@.len(),
                i <= n,
                forall|j: int| 0 <= j < i ==> #[trigger] self.entries@[j].0@ != k@,
            decreases n - i,
        {
            if str_eq(self.entries[i].0.as_str(), k) {
                return Some(i);
            }
            i = i + 1;
        }
        None
    }

    pub fn contains_key(&self, k: &str) -> (r: bool)
        requires
            self.wf(),
        ensures
            r == self.map().contains_key(k@),
    {
        match self.find(k) {
            Some(i) => {
                proof {
                    self.lemma_entry(i as int);
                }
                true
            },
            None => false,
        }
    }

    pub fn get(&self, k: &str) -> (r: Option<&V>)
        requires
            self.wf(),
        ensures
            r is Some <==> self.map().contains_key(k@),
            r matches Some(v) ==> v@ == self.map()[k@],
    {
        match self.find(k) {
            Some(i) => {
                proof {
                    self.lemma_entry(i as int);
                }
                Some(&self.entries[i].1)
            },
            None => None,
        }
    }

    /// Key and value at position `i` (ascending key order).
    pub fn entry(&self, i: usize) -> (r: (&String, &V))
        requires
            i < self.size(),
        ensures
            r.0@ == self.key_at(i as int),
            r.1@ == self.val_at(i as int),
    {
        let e = &self.entries[i];
        (&e.0, &e.1)
    }

    /// Stores `value` under `key`, replacing any earlier value.
    pub fn insert(&mut self, key: String, value: V)
        requires
            old(self).wf(),
        ensures
            final(self).wf(),
            final(self).map() == old(self).map().insert(key@, value@),
    {
        let n = self.entries.len();
        let mut i: usize = 0;
        while i < n && str_less(self.entries[i].0.as_str(), key.as_str())
            invariant
                n == self.entries@.len(),
                i <= n,
                forall|j: int| 0 <= j < i ==> seq_lt(#[trigger] self.entries@[j].0@, key@),
            decreases n - i,
        {
            i = i + 1;
        }
        let ghost old_self = *self;
        let ghost old_map = self.map();
        let ghost old_entries = self.entries@;
        let ghost k = key@;
        let ghost vv = value@;
        if i < n && str_eq(self.entries[i].0.as_str(), key.as_str()) {
            self.entries.set(i, (key, value));
            proof {
                assert(self.entries@ =~= old_entries.update(i as int, self.entries@[i as int]));
                assert forall|a: int, b: int|
                    0 <= a < b < self.entries@.len() implies seq_lt(
                    #[trigger] self.entries@[a].0@,
                    #[trigger] self.entries@[b].0@,
                ) by {
                    assert(old_entries[a].0@ == self.entries@[a].0@);
                    assert(old_entries[b].0@ == self.entries@[b].0@);
                }
                assert(self.wf());
                assert forall|kk: Seq<char>| #[trigger] self.map().contains_key(kk) == old_map.insert(k, vv).contains_key(kk) by {
                    if self.has(kk) {
                        let j = self.index_of(kk);
                        assert(old_entries[j].0@ == kk);
                    }
                    if old_map.contains_key(kk) {
                        let j = choose|j: int| 0 <= j < old_entries.len() && #[trigger] old_entries[j].0@ == kk;
                        assert(self.entries@[j].0@ == kk);
                    }
                    if kk == k {
                        assert(self.entries@[i as int].0@ == kk);
                    }
                }
                assert(self.map() =~= old_map.insert(k, vv)) by {
                    assert forall|kk: Seq<char>| #[trigger] self.map().contains_key(kk) implies self.map()[kk] == old_map.insert(k, vv)[kk] by {
                        let j = self.index_of(kk);
                        self.lemma_entry(j);
                        if kk != k {
                            assert(j != i);
                            assert(old_self.entries@[j].0@ == kk);
                            old_self.lemma_entry(j);
                        }
                    }
                }
            }
        } else {
            proof {
                if i < n {
                    let ki = self.entries@[i as int].0@;
                    lemma_lt_total(ki, k);
                    assert(seq_lt(k, ki));
                }
            }
            self.entries.insert(i, (key, value));
            proof {
                let ne = self.entries@;
                assert(ne =~= old_entries.insert(i as int, ne[i as int]));
                assert(ne[i as int].0@ == k);
                assert forall|a: int, b: int|
                    0 <= a < b < ne.len() implies seq_lt(
                    #[trigger] ne[a].0@,
                    #[trigger] ne[b].0@,
                ) by {
                    if b < i {
                        assert(ne[a] == old_entries[a] && ne[b] == old_entries[b]);
                    } else if b == i {
                        assert(ne[a] == old_entries[a]);
                    } else if a == i {
                        assert(ne[b] == old_entries[b - 1]);
                        if b - 1 > i {
                            lemma_lt_transitive(k, old_entries[i as int].0@, old_entries[b - 1].0@);
                        }
                    } else if a < i {
                        assert(ne[a] == old_entries[a] && ne[b] == old_entries[b - 1]);
                    } else {
                        assert(ne[a] == old_entries[a - 1] && ne[b] == old_entries[b - 1]);
                    }
                }
                assert(self.wf());
                assert(!old_map.contains_key(k)) by {
                    if old_self.has(k) {
                        let j = choose|j: int| 0 <= j < old_entries.len() && #[trigger] old_entries[j].0@ == k;
                        if j < i {
                            lemma_lt_irreflexive(k);
                        } else {
                            if j > i {
                                lemma_lt_transitive(k, old_entries[i as int].0@, old_entries[j].0@);
                            }
                            lemma_lt_irreflexive(k);
                        }
                    }
                }
                assert forall|kk: Seq<char>| #[trigger] self.map().contains_key(kk) == old_map.insert(k, vv).contains_key(kk) by {
                    if self.has(kk) {
                        let j = self.index_of(kk);
                        if j < i {
                            assert(old_entries[j].0@ == kk);
                        } else if j > i {
                            assert(old_entries[j - 1].0@ == kk);
                        }
                    }
                    if old_map.contains_key(kk) {
                        let j = choose|j: int| 0 <= j < old_entries.len() && #[trigger] old_entries[j].0@ == kk;
                        if j < i {
                            assert(ne[j].0@ == kk);
                        } else {
                            assert(ne[j + 1].0@ == kk);
                        }
                    }
                    if kk == k {
                        assert(ne[i as int].0@ == kk);
                    }
                }
                assert(self.map() =~= old_map.insert(k, vv)) by {
                    assert forall|kk: Seq<char>| #[trigger] self.map().contains_key(kk) implies self.map()[kk] == old_map.insert(k, vv)[kk] by {
                        let j = self.index_of(kk);
                        self.lemma_entry(j);
                        if kk != k {
                            if j < i {
                                old_self.lemma_entry(j);
                            } else {
                                assert(j != i);
                                old_self.lemma_entry(j - 1);
                            }
                        }
                    }
                }
            }
        }
    }

    /// Removes `key`, returning what it held.
    pub fn remove(&mut self, key: &str) -> (r: Option<V>)
        requires
            old(self).wf(),
        ensures
            final(self).wf(),
            final(self).map() == old(self).map().remove(key@),
            r is Some <==> old(self).map().contains_key(key@),
            r matches Some(v) ==> v@ == old(self).map()[key@],
    {
        match self.find(key) {
            None => {
                assert(self.map() =~= self.map().remove(key@));
                None
            },
            Some(i) => {
                let ghost old_map = self.map();
                let ghost old_entries = self.entries@;
                let ghost old_self = *self;
                proof {
                    old_self.lemma_entry(i as int);
                }
                let (_k, v) = self.entries.remove(i);
                proof {
                    let ne = self.entries@;
                    assert(ne =~= old_entries.remove(i as int));
                    assert forall|a: int, b: int|
                        0 <= a < b < ne.len() implies seq_lt(
                        #[trigger] ne[a].0@,
                        #[trigger] ne[b].0@,
                    ) by {
                        if b < i {
                        } else if a < i {
                            assert(ne[b] == old_entries[b + 1]);
                        } else {
                            assert(ne[a] == old_entries[a + 1] && ne[b] == old_entries[b + 1]);
                        }
                    }
                    assert(self.wf());
                    let k = key@;
                    assert forall|kk: Seq<char>| #[trigger] self.map().contains_key(kk) == old_map.remove(k).contains_key(kk) by {
                        if self.has(kk) {
                            let j = self.index_of(kk);
                            if j < i {
                                assert(old_entries[j].0@ == kk);
                                if kk == k { old_self.lemma_unique(j, i as int); }
                            } else {
                                assert(old_entries[j + 1].0@ == kk);
                                if kk == k { old_self.lemma_unique(j + 1, i as int); }
                            }
                        }
                        if old_map.contains_key(kk) && kk != k {
                            let j = choose|j: int| 0 <= j < old_entries.len() && #[trigger] old_entries[j].0@ == kk;
                            if j < i {
                                assert(ne[j].0@ == kk);
                            } else {
                                assert(j != i);
                                assert(ne[j - 1].0@ == kk);
                            }
                        }
                    }
                    assert(self.map() =~= old_map.remove(k)) by {
                        assert forall|kk: Seq<char>| #[trigger] self.map().contains_key(kk) implies self.map()[kk] == old_map.remove(k)[kk] by {
                            let j = self.index_of(kk);
                            self.lemma_entry(j);
                            if j < i {
                                old_self.lemma_entry(j);
                            } else {
                                old_self.lemma_entry(j + 1);
                            }
                        }
                    }
                }
                Some(v)
            },
        }
    }
}

impl<V: View + Copy> SortedMap<V> {
    /// An independent copy (keys cloned, values copied).
    pub fn copied(&self) -> (r: Self)
        requires
            self.wf(),
        ensures
            r.wf(),
            r.map() == self.map(),
            r.size() == self.size(),
            forall|i: int| 0 <= i < r.size() ==> #[trigger] r.key_at(i) == self.key_at(i) && r.val_at(i) == self.val_at(i),
    {
        let n = self.entries.len();
        let mut out: Vec<(String, V)> = Vec::new();
        let mut i: usize = 0;
        while i < n
            invariant
                n == self.entries@.len(),
                i <= n,
                out@.len() == i,
                forall|j: int| 0 <= j < i ==> (#[trigger] out@[j]).0@ == self.entries@[j].0@ && out@[j].1 == self.entries@[j].1,
            decreases n - i,
        {
            let k = self.entries[i].0.clone();
            let v = self.entries[i].1;
            out.push((k, v));
            i = i + 1;
        }
        let r = SortedMap { entries: out };
        proof {
            assert(r.wf()) by {
                assert forall|a: int, b: int| 0 <= a < b < r.entries@.len() implies seq_lt(
                    #[trigger] r.entries@[a].0@,
                    #[trigger] r.entries@[b].0@,
                ) by {
                    assert(seq_lt(self.entries@[a].0@, self.entries@[b].0@));
                }
            }
            assert forall|k: Seq<char>| #[trigger] r.map().contains_key(k) == self.map().contains_key(k) by {
                if r.has(k) {
                    let j = r.index_of(k);
                    assert(self.entries@[j].0@ == k);
                }
                if self.has(k) {
                    let j = self.index_of(k);
                    assert(r.entries@[j].0@ == k);
                }
            }
            assert forall|k: Seq<char>| #[trigger] r.map().contains_key(k) implies r.map()[k] == self.map()[k] by {
                let j = r.index_of(k);
                r.lemma_entry(j);
                self.lemma_entry(j);
            }
            assert(r.map() =~= self.map());
        }
        r
    }
}

} // verus!
