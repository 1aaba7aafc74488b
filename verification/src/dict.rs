use vstd::prelude::*;

verus! {

/// A table from names to values: each name occurs once, and a later `insert` of a name
/// replaces its value.
#[derive(Debug)]
pub struct Dict<V> {
    entries: Vec<(String, V)>,
}

impl<V> Dict<V> {
    /// The names, in the order in which they were first inserted.
    pub closed spec fn key_list(self) -> Seq<Seq<char>> {
        self.entries@.map_values(|e: (String, V)| e.0@)
    }

    /// No name occurs twice.
    #[verifier::type_invariant]
    pub closed spec fn names_distinct(self) -> bool {
        forall|i: int, j: int|
            0 <= i < j < self.entries@.len() ==> self.entries@[i].0@ != self.entries@[j].0@
    }

    /// The position of name `k`.
    closed spec fn position(self, k: Seq<char>) -> int {
        choose|i: int| 0 <= i < self.entries@.len() && self.entries@[i].0@ == k
    }

    closed spec fn holds(self, k: Seq<char>) -> bool {
        exists|i: int| 0 <= i < self.entries@.len() && self.entries@[i].0@ == k
    }
}

impl<V: View> View for Dict<V> {
    type V = Map<Seq<char>, V::V>;

    closed spec fn view(&self) -> Map<Seq<char>, V::V> {
        Map::new(|k: Seq<char>| self.holds(k), |k: Seq<char>| self.entries@[self.position(k)].1@)
    }
}

impl<V: View> Dict<V> {
    proof fn lemma_position(self, i: int)
        requires
            self.names_distinct(),
            0 <= i < self.entries@.len(),
        ensures
            self.holds(self.entries@[i].0@),
            self.position(self.entries@[i].0@) == i,
            self@.contains_key(self.entries@[i].0@),
            self@[self.entries@[i].0@] == self.entries@[i].1@,
    {
        let k = self.entries@[i].0@;
        assert(self.holds(k));
        let p = self.position(k);
        assert(0 <= p < self.entries@.len() && self.entries@[p].0@ == k);
        if p < i {
            assert(self.entries@[p].0@ != self.entries@[i].0@);
        } else if p > i {
            assert(self.entries@[i].0@ != self.entries@[p].0@);
        }
    }

    /// An empty table.
    pub fn new() -> (d: Self)
        ensures
            d@ == Map::<Seq<char>, V::V>::empty(),
            d.key_list() == Seq::<Seq<char>>::empty(),
    {
        let d = Dict { entries: Vec::new() };
        assert(d@ =~= Map::<Seq<char>, V::V>::empty());
        assert(d.key_list() =~= Seq::<Seq<char>>::empty());
        d
    }

    /// The position of `key` among the names, if it is there.
    fn find(&self, key: &String) -> (r: Option<usize>)
        ensures
            r is None <==> !self@.contains_key(key@),
            r matches Some(i) ==> i < self.entries@.len() && self.entries@[i as int].0@ == key@
                && self.position(key@) == i,
    {
        proof {
            use_type_invariant(self);
        }
        let mut i: usize = 0;
        while i < self.entries.len()
            invariant
                i <= self.entries@.len(),
                self.names_distinct(),
                forall|j: int| 0 <= j < i ==> self.entries@[j].0@ != key@,
            decreases self.entries@.len() - i,
        {
            if self.entries[i].0 == *key {
                proof {
                    self.lemma_position(i as int);
                }
                return Some(i);
            }
            i = i + 1;
        }
        None
    }

    /// Whether `key` is a name of the table.
    pub fn contains_key(&self, key: &String) -> (r: bool)
        ensures
            r == self@.contains_key(key@),
    {
        self.find(key).is_some()
    }

    /// The value of `key`, if it is a name of the table.
    pub fn get(&self, key: &String) -> (r: Option<&V>)
        ensures
            r is Some <==> self@.contains_key(key@),
            r matches Some(v) ==> v@ == self@[key@],
    {
        match self.find(key) {
            Some(i) => Some(&self.entries[i].1),
            None => None,
        }
    }

    /// Gives `key` the value `value`: it replaces the value that `key` had, which it hands
    /// back, or adds `key` at the end of the names.
    pub fn insert(&mut self, key: String, value: V) -> (prev: Option<V>)
        ensures
            prev is Some <==> old(self)@.contains_key(key@),
            prev matches Some(p) ==> p@ == old(self)@[key@],
            final(self)@ == old(self)@.insert(key@, value@),
            old(self)@.contains_key(key@) ==> final(self).key_list() == old(self).key_list(),
            !old(self)@.contains_key(key@) ==> final(self).key_list() == old(self).key_list().push(
                key@,
            ),
    {
        proof {
            use_type_invariant(&*self);
        }
        let ghost before = *self;
        let found = self.find(&key);
        let mut entries: Vec<(String, V)> = Vec::new();
        std::mem::swap(&mut entries, &mut self.entries);
        let ghost k = key@;
        let ghost vv = value@;
        let prev = match found {
            Some(i) => {
                let old_entry = entries.remove(i);
                entries.insert(i, (key, value));
                proof {
                    before.lemma_position(i as int);
                }
                Some(old_entry.1)
            },
            None => {
                entries.push((key, value));
                None
            },
        };
        let ghost after = Dict { entries: entries };
        proof {
            assert(after.names_distinct()) by {
                assert forall|a: int, b: int| 0 <= a < b < after.entries@.len() implies
                    after.entries@[a].0@ != after.entries@[b].0@ by {
                    if found is None && b == after.entries@.len() - 1 {
                        assert(!before.holds(k));
                        assert(!(0 <= a < before.entries@.len() && before.entries@[a].0@ == k));
                    }
                }
            }
            assert forall|j: int| 0 <= j < after.entries@.len() implies after.holds(
                after.entries@[j].0@,
            ) && after.position(after.entries@[j].0@) == j by {
                after.lemma_position(j);
            }
            assert forall|q: Seq<char>| #[trigger] after@.contains_key(q) <==> before@.insert(
                k,
                vv,
            ).contains_key(q) by {
                if after.holds(q) {
                    let p = after.position(q);
                    if q != k {
                        assert(before.entries@[p].0@ == q);
                    }
                }
                if before.holds(q) {
                    let p = before.position(q);
                    assert(after.entries@[p].0@ == q || p == found->0);
                }
                if q == k {
                    match found {
                        Some(i) => assert(after.entries@[i as int].0@ == k),
                        None => assert(after.entries@[before.entries@.len() as int].0@ == k),
                    }
                }
            }
            assert forall|q: Seq<char>| #[trigger] after@.contains_key(q) implies after@[q]
                == before@.insert(k, vv)[q] by {
                let p = after.position(q);
                if q != k {
                    assert(before.entries@[p].0@ == q);
                    before.lemma_position(p);
                }
            }
            assert(after@ =~= before@.insert(k, vv));
            match found {
                Some(i) => assert(after.key_list() =~= before.key_list()),
                None => assert(after.key_list() =~= before.key_list().push(k)),
            }
        }
        self.entries = entries;
        prev
    }

    /// How many names the table holds.
    pub fn len(&self) -> (n: usize)
        ensures
            n == self.key_list().len(),
    {
        self.entries.len()
    }

    /// The name at position `i`.
    pub fn key_at(&self, i: usize) -> (k: &String)
        requires
            i < self.key_list().len(),
        ensures
            k@ == self.key_list()[i as int],
            self@.contains_key(k@),
    {
        proof {
            use_type_invariant(self);
            self.lemma_position(i as int);
        }
        &self.entries[i].0
    }

    /// The value of the name at position `i`.
    pub fn value_at(&self, i: usize) -> (v: &V)
        requires
            i < self.key_list().len(),
        ensures
            v@ == self@[self.key_list()[i as int]],
    {
        proof {
            use_type_invariant(self);
            self.lemma_position(i as int);
        }
        &self.entries[i].1
    }

    /// The names are those of the table, each once.
    pub proof fn lemma_keys(self)
        requires
            self.names_distinct(),
        ensures
            forall|k: Seq<char>| self@.contains_key(k) <==> self.key_list().contains(k),
            forall|i: int, j: int|
                0 <= i < j < self.key_list().len() ==> self.key_list()[i] != self.key_list()[j],
    {
        assert forall|k: Seq<char>| self@.contains_key(k) <==> self.key_list().contains(k) by {
            if self@.contains_key(k) {
                let p = self.position(k);
                assert(self.key_list()[p] == k);
            }
            if self.key_list().contains(k) {
                let p = choose|p: int| 0 <= p < self.key_list().len() && self.key_list()[p] == k;
                assert(self.entries@[p].0@ == k);
            }
        }
    }
}

impl Dict<String> {
    /// A copy with the same names and values, in the same order.
    pub fn duplicate(&self) -> (r: Self)
        ensures
            r@ == self@,
            r.key_list() == self.key_list(),
    {
        proof {
            use_type_invariant(self);
        }
        let mut entries: Vec<(String, String)> = Vec::new();
        let mut i: usize = 0;
        while i < self.entries.len()
            invariant
                i <= self.entries@.len(),
                self.names_distinct(),
                entries@.len() == i,
                forall|j: int|
                    0 <= j < i ==> (#[trigger] entries@[j]).0@ == self.entries@[j].0@
                        && entries@[j].1@ == self.entries@[j].1@,
            decreases self.entries@.len() - i,
        {
            let k = self.entries[i].0.clone();
            let v = self.entries[i].1.clone();
            entries.push((k, v));
            i = i + 1;
        }
        let r = Dict { entries };
        proof {
            assert forall|k: Seq<char>| #[trigger] r@.contains_key(k) <==> self@.contains_key(k) by {
                if r.holds(k) {
                    let p = r.position(k);
                    assert(self.entries@[p].0@ == k);
                }
                if self.holds(k) {
                    let p = self.position(k);
                    assert(r.entries@[p].0@ == k);
                }
            }
            assert forall|k: Seq<char>| #[trigger] r@.contains_key(k) implies r@[k] == self@[k] by {
                let p = r.position(k);
                r.lemma_position(p);
                self.lemma_position(p);
            }
            assert(r@ =~= self@);
            assert(r.key_list() =~= self.key_list());
        }
        r
    }
}

} // verus!
