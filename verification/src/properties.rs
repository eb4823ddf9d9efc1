//! A string-to-string property map, stored as an association list with unique
//! keys and viewed as a mathematical map.

use vstd::prelude::*;

verus! {

/// A property map. Keys are unique; the view is the map the entries denote.
#[derive(Debug)]
pub struct Properties {
    entries: Vec<(String, String)>,
}

impl Properties {
    pub closed spec fn key_at(&self, i: int) -> Seq<char> {
        self.entries@[i].0@
    }

    pub closed spec fn val_at(&self, i: int) -> Seq<char> {
        self.entries@[i].1@
    }

    pub closed spec fn num_entries(&self) -> nat {
        self.entries@.len()
    }

    pub closed spec fn wf(&self) -> bool {
        forall|i: int, j: int|
            0 <= i < j < self.num_entries() ==> self.key_at(i) != self.key_at(j)
    }

    /// The set of keys among the first `n` entries.
    pub closed spec fn keyset_prefix(&self, n: int) -> Set<Seq<char>> {
        Set::new(|k: Seq<char>| exists|i: int| 0 <= i < n && self.key_at(i) == k)
    }

    /// The map denoted by the first `n` entries.
    pub closed spec fn map_prefix(&self, n: int) -> Map<Seq<char>, Seq<char>> {
        Map::new(
            |k: Seq<char>| exists|i: int| 0 <= i < n && self.key_at(i) == k,
            |k: Seq<char>|
                self.val_at(choose|i: int| 0 <= i < n && self.key_at(i) == k),
        )
    }

    proof fn lemma_key_unique(&self, i: int, j: int)
        requires
            self.wf(),
            0 <= i < self.num_entries(),
            0 <= j < self.num_entries(),
            self.key_at(i) == self.key_at(j),
        ensures
            i == j,
    {
        if i < j {
            assert(self.key_at(i) != self.key_at(j));
        } else if j < i {
            assert(self.key_at(j) != self.key_at(i));
        }
    }

    /// With unique keys, the map of the first `i` entries at the key of entry
    /// `i` is undefined, and at any entry's key gives that entry's value.
    proof fn lemma_entry_lookup(&self, n: int, i: int)
        requires
            self.wf(),
            0 <= i < n <= self.num_entries(),
        ensures
            self.map_prefix(n).dom().contains(self.key_at(i)),
            self.map_prefix(n)[self.key_at(i)] == self.val_at(i),
    {
        let k = self.key_at(i);
        assert(self.map_prefix(n).dom().contains(k));
        let j = choose|j: int| 0 <= j < n && self.key_at(j) == k;
        self.lemma_key_unique(i, j);
    }

    proof fn lemma_card(&self, n: int)
        requires
            self.wf(),
            0 <= n <= self.num_entries(),
        ensures
            self.keyset_prefix(n).finite(),
            self.keyset_prefix(n).len() == n,
        decreases n,
    {
        if n == 0 {
            assert(self.keyset_prefix(0) =~= Set::empty());
        } else {
            self.lemma_card(n - 1);
            assert(self.keyset_prefix(n) =~= self.keyset_prefix(n - 1).insert(
                self.key_at(n - 1),
            ));
            if self.keyset_prefix(n - 1).contains(self.key_at(n - 1)) {
                let j = choose|j: int|
                    0 <= j < n - 1 && (#[trigger] self.key_at(j)) == self.key_at(n - 1);
                self.lemma_key_unique(j, n - 1);
            }
        }
    }

    pub fn new() -> (r: Self)
        ensures
            r.wf(),
            r@ == Map::<Seq<char>, Seq<char>>::empty(),
    {
        let r = Properties { entries: Vec::new() };
        proof {
            assert(r@ =~= Map::<Seq<char>, Seq<char>>::empty());
        }
        r
    }

    /// The index of the entry holding `key`, if any.
    fn find_key(&self, key: &String) -> (r: Option<usize>)
        ensures
            match r {
                Some(i) => i < self.num_entries() && self.key_at(i as int) == key@,
                None => forall|i: int|
                    0 <= i < self.num_entries() ==> self.key_at(i) != key@,
            },
    {
        let n = self.entries.len();
        let mut i: usize = 0;
        while i < n
            invariant
                n == self.num_entries(),
                i <= n,
                forall|j: int| 0 <= j < i ==> self.key_at(j) != key@,
            decreases n - i,
        {
            if self.entries[i].0 == *key {
                return Some(i);
            }
            i = i + 1;
        }
        None
    }

    pub fn get(&self, key: &String) -> (r: Option<&String>)
        requires
            self.wf(),
        ensures
            match r {
                Some(v) => self@.dom().contains(key@) && self@[key@] == v@,
                None => !self@.dom().contains(key@),
            },
    {
        match self.find_key(key) {
            Some(i) => {
                proof {
                    self.lemma_entry_lookup(self.num_entries() as int, i as int);
                }
                Some(&self.entries[i].1)
            },
            None => {
                proof {
                    if self@.dom().contains(key@) {
                        let j = choose|j: int|
                            0 <= j < self.num_entries() && self.key_at(j) == key@;
                        assert(self.key_at(j) != key@);
                    }
                }
                None
            },
        }
    }

    pub fn insert(&mut self, key: String, value: String)
        requires
            old(self).wf(),
        ensures
            final(self).wf(),
            final(self)@ == old(self)@.insert(key@, value@),
            final(self).num_entries() <= old(self).num_entries() + 1,
    {
        let ghost pre = *self;
        match self.find_key(&key) {
            Some(i) => {
                self.entries.set(i, (key, value));
                proof {
                    assert(forall|j: int|
                        0 <= j < self.num_entries() && j != i ==> self.key_at(j)
                            == pre.key_at(j) && self.val_at(j) == pre.val_at(j));
                    assert(self.key_at(i as int) == pre.key_at(i as int));
                    assert forall|a: int, b: int|
                        0 <= a < b < self.num_entries() implies self.key_at(a) != self.key_at(
                        b,
                    ) by {
                        assert(self.key_at(a) == pre.key_at(a));
                        assert(self.key_at(b) == pre.key_at(b));
                        assert(pre.key_at(a) != pre.key_at(b));
                    }
                    self.lemma_view_after_update(pre, i as int, key@, value@);
                }
            },
            None => {
                self.entries.push((key, value));
                proof {
                    let n = pre.num_entries() as int;
                    assert(forall|j: int|
                        0 <= j < n ==> self.key_at(j) == pre.key_at(j) && self.val_at(j)
                            == pre.val_at(j));
                    assert(self.key_at(n) == key@);
                    assert forall|a: int, b: int|
                        0 <= a < b < self.num_entries() implies self.key_at(a) != self.key_at(
                        b,
                    ) by {
                        if b == n {
                            assert(pre.key_at(a) != key@);
                        } else {
                            assert(pre.key_at(a) != pre.key_at(b));
                        }
                    }
                    self.lemma_view_after_push(pre, key@, value@);
                }
            },
        }
    }

    proof fn lemma_view_after_update(&self, pre: Properties, i: int, k: Seq<char>, v: Seq<char>)
        requires
            pre.wf(),
            self.wf(),
            0 <= i < pre.num_entries(),
            self.num_entries() == pre.num_entries(),
            pre.key_at(i) == k,
            self.key_at(i) == k,
            self.val_at(i) == v,
            forall|j: int|
                0 <= j < self.num_entries() && j != i ==> self.key_at(j) == pre.key_at(j)
                    && self.val_at(j) == pre.val_at(j),
        ensures
            self@ == pre@.insert(k, v),
    {
        let n = self.num_entries() as int;
        assert forall|q: Seq<char>| self@.dom().contains(q) implies pre@.insert(
            k,
            v,
        ).dom().contains(q) by {
            let j = choose|j: int| 0 <= j < n && self.key_at(j) == q;
            if j != i {
                assert(pre.key_at(j) == q);
            }
        }
        assert forall|q: Seq<char>| pre@.insert(k, v).dom().contains(q) implies self@.dom().contains(
            q,
        ) by {
            if q == k {
                assert(self.key_at(i) == q);
            } else {
                let j = choose|j: int| 0 <= j < n && pre.key_at(j) == q;
                assert(j != i);
                assert(self.key_at(j) == q);
            }
        }
        assert forall|q: Seq<char>| self@.dom().contains(q) implies self@[q] == pre@.insert(
            k,
            v,
        )[q] by {
            let j = choose|j: int| 0 <= j < n && self.key_at(j) == q;
            self.lemma_entry_lookup(n, j);
            if q == k {
                self.lemma_key_unique(i, j);
            } else {
                assert(pre.key_at(j) == q);
                pre.lemma_entry_lookup(n, j);
            }
        }
        assert(self@ =~= pre@.insert(k, v));
    }

    proof fn lemma_view_after_push(&self, pre: Properties, k: Seq<char>, v: Seq<char>)
        requires
            pre.wf(),
            self.wf(),
            self.num_entries() == pre.num_entries() + 1,
            self.key_at(pre.num_entries() as int) == k,
            self.val_at(pre.num_entries() as int) == v,
            forall|j: int|
                0 <= j < pre.num_entries() ==> self.key_at(j) == pre.key_at(j) && self.val_at(j)
                    == pre.val_at(j),
        ensures
            self@ == pre@.insert(k, v),
    {
        let n = pre.num_entries() as int;
        assert forall|q: Seq<char>| self@.dom().contains(q) implies pre@.insert(
            k,
            v,
        ).dom().contains(q) by {
            let j = choose|j: int| 0 <= j < n + 1 && self.key_at(j) == q;
            if j < n {
                assert(pre.key_at(j) == q);
            }
        }
        assert forall|q: Seq<char>| pre@.insert(k, v).dom().contains(q) implies self@.dom().contains(
            q,
        ) by {
            if q == k {
                assert(self.key_at(n) == q);
            } else {
                let j = choose|j: int| 0 <= j < n && pre.key_at(j) == q;
                assert(self.key_at(j) == q);
            }
        }
        assert forall|q: Seq<char>| self@.dom().contains(q) implies self@[q] == pre@.insert(
            k,
            v,
        )[q] by {
            let j = choose|j: int| 0 <= j < n + 1 && self.key_at(j) == q;
            self.lemma_entry_lookup(n + 1, j);
            if q == k {
                self.lemma_key_unique(n, j);
            } else {
                assert(j < n);
                assert(pre.key_at(j) == q);
                pre.lemma_entry_lookup(n, j);
            }
        }
        assert(self@ =~= pre@.insert(k, v));
    }

    pub fn remove(&mut self, key: &String)
        requires
            old(self).wf(),
        ensures
            final(self).wf(),
            final(self)@ == old(self)@.remove(key@),
    {
        let ghost pre = *self;
        match self.find_key(key) {
            Some(i) => {
                self.entries.remove(i);
                proof {
                    let n = pre.num_entries() as int;
                    assert(forall|j: int|
                        0 <= j < i ==> self.key_at(j) == pre.key_at(j) && self.val_at(j)
                            == pre.val_at(j));
                    assert(forall|j: int|
                        i <= j < n - 1 ==> self.key_at(j) == pre.key_at(j + 1) && self.val_at(j)
                            == pre.val_at(j + 1));
                    assert forall|a: int, b: int|
                        0 <= a < b < self.num_entries() implies self.key_at(a) != self.key_at(
                        b,
                    ) by {
                        let a0 = if a < i {
                            a
                        } else {
                            a + 1
                        };
                        let b0 = if b < i {
                            b
                        } else {
                            b + 1
                        };
                        assert(pre.key_at(a0) != pre.key_at(b0));
                    }
                    assert(self.wf());
                    self.lemma_view_after_remove(pre, i as int, key@);
                }
            },
            None => {
                proof {
                    if pre@.dom().contains(key@) {
                        let j = choose|j: int|
                            0 <= j < pre.num_entries() && pre.key_at(j) == key@;
                        assert(pre.key_at(j) != key@);
                    }
                    assert(self@ =~= pre@.remove(key@));
                }
            },
        }
    }

    proof fn lemma_view_after_remove(&self, pre: Properties, i: int, k: Seq<char>)
        requires
            pre.wf(),
            self.wf(),
            0 <= i < pre.num_entries(),
            pre.key_at(i) == k,
            self.num_entries() == pre.num_entries() - 1,
            forall|j: int|
                0 <= j < i ==> self.key_at(j) == pre.key_at(j) && self.val_at(j) == pre.val_at(j),
            forall|j: int|
                i <= j < pre.num_entries() - 1 ==> self.key_at(j) == pre.key_at(j + 1)
                    && self.val_at(j) == pre.val_at(j + 1),
        ensures
            self@ == pre@.remove(k),
    {
        let n = self.num_entries() as int;
        assert forall|q: Seq<char>| self@.dom().contains(q) implies pre@.remove(k).dom().contains(
            q,
        ) by {
            let j = choose|j: int| 0 <= j < n && self.key_at(j) == q;
            let j0 = if j < i {
                j
            } else {
                j + 1
            };
            assert(pre.key_at(j0) == q);
            if q == k {
                pre.lemma_key_unique(i, j0);
            }
        }
        assert forall|q: Seq<char>| pre@.remove(k).dom().contains(q) implies self@.dom().contains(
            q,
        ) by {
            let j0 = choose|j0: int| 0 <= j0 < n + 1 && pre.key_at(j0) == q;
            if j0 == i {
                assert(q == k);
            } else {
                let j = if j0 < i {
                    j0
                } else {
                    j0 - 1
                };
                assert(self.key_at(j) == q);
            }
        }
        assert forall|q: Seq<char>| self@.dom().contains(q) implies self@[q] == pre@.remove(k)[q] by {
            let j = choose|j: int| 0 <= j < n && self.key_at(j) == q;
            self.lemma_entry_lookup(n, j);
            let j0 = if j < i {
                j
            } else {
                j + 1
            };
            assert(pre.key_at(j0) == q);
            pre.lemma_entry_lookup(n + 1, j0);
            if q == k {
                pre.lemma_key_unique(i, j0);
            }
        }
        assert(self@ =~= pre@.remove(k));
    }

    /// The number of properties held; also the cardinality of the view's domain.
    pub fn len(&self) -> (r: usize)
        requires
            self.wf(),
        ensures
            self@.dom().finite(),
            r == self@.dom().len(),
    {
        proof {
            self.lemma_card(self.num_entries() as int);
            assert(self@.dom() =~= self.keyset_prefix(self.num_entries() as int));
        }
        self.entries.len()
    }

    /// Fold every entry of `other` into `self`, later values winning.
    pub fn append_all(&mut self, other: &Properties)
        requires
            old(self).wf(),
            other.wf(),
        ensures
            final(self).wf(),
            final(self)@ == old(self)@.union_prefer_right(other@),
    {
        let ghost pre = *self;
        let n = other.entries.len();
        let mut i: usize = 0;
        while i < n
            invariant
                n == other.num_entries(),
                other.wf(),
                i <= n,
                self.wf(),
                self@ == pre@.union_prefer_right(other.map_prefix(i as int)),
            decreases n - i,
        {
            let k = other.entries[i].0.clone();
            let v = other.entries[i].1.clone();
            proof {
                other.lemma_entry_lookup(i as int + 1, i as int);
                assert forall|q: Seq<char>|
                    other.map_prefix(i as int + 1).dom().contains(q) && q != other.key_at(
                        i as int,
                    ) implies other.map_prefix(i as int).dom().contains(q) && other.map_prefix(
                    i as int,
                )[q] == other.map_prefix(i as int + 1)[q] by {
                    let j = choose|j: int| 0 <= j < i + 1 && other.key_at(j) == q;
                    assert(j < i);
                    other.lemma_entry_lookup(i as int, j);
                    other.lemma_entry_lookup(i as int + 1, j);
                }
                assert(other.map_prefix(i as int + 1) =~= other.map_prefix(i as int).insert(
                    other.key_at(i as int),
                    other.val_at(i as int),
                ));
            }
            self.insert(k, v);
            proof {
                assert(self@ =~= pre@.union_prefer_right(other.map_prefix(i as int + 1)));
            }
            i = i + 1;
        }
        proof {
            assert(other@ =~= other.map_prefix(n as int));
        }
    }
}

impl Clone for Properties {
    fn clone(&self) -> (r: Self)
        ensures
            self.wf() ==> r.wf() && r@ == self@,
    {
        let mut entries: Vec<(String, String)> = Vec::new();
        let n = self.entries.len();
        let mut i: usize = 0;
        while i < n
            invariant
                n == self.num_entries(),
                i <= n,
                entries@.len() == i,
                forall|j: int|
                    0 <= j < i ==> entries@[j].0 == self.entries@[j].0 && entries@[j].1
                        == self.entries@[j].1,
            decreases n - i,
        {
            let k = self.entries[i].0.clone();
            let v = self.entries[i].1.clone();
            entries.push((k, v));
            i = i + 1;
        }
        let r = Properties { entries };
        proof {
            if self.wf() {
            assert(forall|j: int|
                0 <= j < n ==> r.key_at(j) == self.key_at(j) && r.val_at(j) == self.val_at(j));
            assert forall|a: int, b: int|
                0 <= a < b < r.num_entries() implies r.key_at(a) != r.key_at(b) by {
                assert(self.key_at(a) != self.key_at(b));
            }
            assert forall|q: Seq<char>| r@.dom().contains(q) implies self@.dom().contains(q)
                && r@[q] == self@[q] by {
                let j = choose|j: int| 0 <= j < n && r.key_at(j) == q;
                r.lemma_entry_lookup(n as int, j);
                self.lemma_entry_lookup(n as int, j);
            }
            assert forall|q: Seq<char>| self@.dom().contains(q) implies r@.dom().contains(q) by {
                let j = choose|j: int| 0 <= j < n && self.key_at(j) == q;
                assert(r.key_at(j) == q);
            }
            assert(r@ =~= self@);
            }
        }
        r
    }
}

impl View for Properties {
    type V = Map<Seq<char>, Seq<char>>;

    closed spec fn view(&self) -> Map<Seq<char>, Seq<char>> {
        self.map_prefix(self.num_entries() as int)
    }
}

} // verus!
