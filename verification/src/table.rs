//! A table from names to values: inserting a name that is present replaces its
//! value in place, and no name occurs twice. Entries keep the order in which
//! their names were first inserted.
use vstd::prelude::*;
use crate::text::same_text;

verus! {

pub struct Table<V: View> {
    entries: Vec<(String, V)>,
}

impl<V: View> Table<V> {
    /// The entries in order, names and values taken as mathematical values.
    pub closed spec fn entries(&self) -> Seq<(Seq<char>, V::V)> {
        Seq::new(self.entries@.len(), |i: int| (self.entries@[i].0@, self.entries@[i].1@))
    }

    /// No name occurs twice.
    #[verifier::type_invariant]
    closed spec fn unique(&self) -> bool {
        forall|i: int, j: int|
            0 <= i < self.entries@.len() && 0 <= j < self.entries@.len() && i != j
                ==> self.entries@[i].0@ != self.entries@[j].0@
    }

    /// The table as a map from names to values.
    pub closed spec fn view_map(&self) -> Map<Seq<char>, V::V> {
        Map::new(
            |k: Seq<char>| exists|i: int| 0 <= i < self.entries@.len() && self.entries@[i].0@ == k,
            |k: Seq<char>|
                self.entries@[choose|i: int|
                    0 <= i < self.entries@.len() && self.entries@[i].0@ == k].1@,
        )
    }

    /// The names in order.
    pub closed spec fn names(&self) -> Seq<Seq<char>> {
        Seq::new(self.entries@.len(), |i: int| self.entries@[i].0@)
    }

    /// A name is in the table exactly when it is one of the names.
    pub proof fn lemma_names(&self)
        ensures
            forall|k: Seq<char>| #[trigger] self.view_map().contains_key(k) <==> self.names().contains(k),
            self.names().len() == self.entries().len(),
    {
        assert forall|k: Seq<char>| #[trigger] self.view_map().contains_key(k) <==> self.names().contains(k) by {
            if self.view_map().contains_key(k) {
                let i = choose|i: int| 0 <= i < self.entries@.len() && self.entries@[i].0@ == k;
                assert(self.names()[i] == k);
            }
            if self.names().contains(k) {
                let i = choose|i: int| 0 <= i < self.names().len() && self.names()[i] == k;
                assert(self.entries@[i].0@ == k);
            }
        }
    }

    /// An empty table.
    pub fn new() -> (r: Table<V>)
        ensures
            r.view_map() == Map::<Seq<char>, V::V>::empty(),
            r.entries().len() == 0,
            r.names() == Seq::<Seq<char>>::empty(),
    {
        let r = Table { entries: Vec::new() };
        assert(r.view_map() =~= Map::<Seq<char>, V::V>::empty());
        assert(r.names() =~= Seq::<Seq<char>>::empty());
        r
    }

    /// Number of entries.
    pub fn len(&self) -> (r: usize)
        ensures
            r == self.entries().len(),
            r == self.names().len(),
    {
        self.entries.len()
    }

    /// Position of a name, if present.
    fn position(&self, k: &String) -> (r: Option<usize>)
        ensures
            match r {
                Some(i) => i < self.entries@.len() && self.entries@[i as int].0@ == k@,
                None => forall|i: int|
                    0 <= i < self.entries@.len() ==> self.entries@[i].0@ != k@,
            },
    {
        let mut i: usize = 0;
        while i < self.entries.len()
            invariant
                i <= self.entries@.len(),
                forall|j: int| 0 <= j < i ==> self.entries@[j].0@ != k@,
            decreases self.entries.len() - i,
        {
            if same_text(&self.entries[i].0, k) {
                return Some(i);
            }
            i = i + 1;
        }
        None
    }

    /// The value stored under a name.
    pub fn get(&self, k: &String) -> (r: Option<&V>)
        ensures
            match r {
                Some(v) => self.view_map().contains_key(k@) && self.view_map()[k@] == v@,
                None => !self.view_map().contains_key(k@),
            },
    {
        proof {
            use_type_invariant(self);
        }
        match self.position(k) {
            Some(i) => {
                proof {
                    let j = choose|j: int|
                        0 <= j < self.entries@.len() && self.entries@[j].0@ == k@;
                    assert(j == i);
                }
                Some(&self.entries[i].1)
            },
            None => None,
        }
    }

    /// Whether a name is present.
    pub fn contains(&self, k: &String) -> (r: bool)
        ensures
            r == self.view_map().contains_key(k@),
    {
        self.position(k).is_some()
    }

    /// Stores `v` under `k`: replaces the value in place when `k` is present,
    /// adds an entry at the end otherwise.
    pub fn insert(&mut self, k: String, v: V)
        ensures
            final(self).view_map() == old(self).view_map().insert(k@, v@),
            old(self).view_map().contains_key(k@) ==> final(self).names() == old(self).names(),
            !old(self).view_map().contains_key(k@) ==> final(self).names() == old(self).names().push(
                k@,
            ),
    {
        proof {
            use_type_invariant(&*self);
        }
        let ghost kv = k@;
        let ghost vv = v@;
        let ghost old_map = self.view_map();
        let ghost old_entries = self.entries@;
        let pos = self.position(&k);
        let mut es: Vec<(String, V)> = Vec::new();
        std::mem::swap(&mut es, &mut self.entries);
        match pos {
            Some(i) => {
                es.set(i, (k, v));
                self.entries = es;
                proof {
                    assert forall|a: int, b: int|
                        0 <= a < self.entries@.len() && 0 <= b < self.entries@.len() && a != b
                            implies self.entries@[a].0@ != self.entries@[b].0@ by {
                        if a != i && b != i {
                            assert(old_entries[a] == self.entries@[a]);
                            assert(old_entries[b] == self.entries@[b]);
                        } else if a == i {
                            assert(old_entries[b] == self.entries@[b]);
                        } else {
                            assert(old_entries[a] == self.entries@[a]);
                        }
                    }
                    assert forall|q: Seq<char>| #[trigger] self.view_map().contains_key(q) == old_map.insert(
                        kv,
                        vv,
                    ).contains_key(q) by {
                        if q != kv {
                            if exists|j: int| 0 <= j < old_entries.len() && old_entries[j].0@ == q {
                                let j = choose|j: int|
                                    0 <= j < old_entries.len() && old_entries[j].0@ == q;
                                assert(self.entries@[j].0@ == q);
                            }
                            if exists|j: int|
                                0 <= j < self.entries@.len() && self.entries@[j].0@ == q {
                                let j = choose|j: int|
                                    0 <= j < self.entries@.len() && self.entries@[j].0@ == q;
                                assert(old_entries[j].0@ == q);
                            }
                        } else {
                            assert(self.entries@[i as int].0@ == q);
                        }
                    }
                    assert forall|q: Seq<char>| #[trigger] self.view_map().contains_key(q) implies self.view_map()[q]
                        == old_map.insert(kv, vv)[q] by {
                        let j = choose|j: int|
                            0 <= j < self.entries@.len() && self.entries@[j].0@ == q;
                        if q != kv {
                            let j0 = choose|j: int|
                                0 <= j < old_entries.len() && old_entries[j].0@ == q;
                            assert(j0 != i);
                            assert(self.entries@[j0].0@ == q);
                            assert(j == j0);
                        } else {
                            assert(self.entries@[i as int].0@ == q);
                            assert(j == i);
                        }
                    }
                    assert(self.view_map() =~= old_map.insert(kv, vv));
                    assert(self.names() =~= old(self).names());
                }
            },
            None => {
                es.push((k, v));
                self.entries = es;
                proof {
                    let n = old_entries.len();
                    assert forall|a: int, b: int|
                        0 <= a < self.entries@.len() && 0 <= b < self.entries@.len() && a != b
                            implies self.entries@[a].0@ != self.entries@[b].0@ by {
                        if a < n && b < n {
                            assert(old_entries[a] == self.entries@[a]);
                            assert(old_entries[b] == self.entries@[b]);
                        } else if a < n {
                            assert(old_entries[a] == self.entries@[a]);
                        } else {
                            assert(old_entries[b] == self.entries@[b]);
                        }
                    }
                    assert forall|q: Seq<char>| #[trigger] self.view_map().contains_key(q) == old_map.insert(
                        kv,
                        vv,
                    ).contains_key(q) by {
                        if q != kv {
                            if exists|j: int| 0 <= j < old_entries.len() && old_entries[j].0@ == q {
                                let j = choose|j: int|
                                    0 <= j < old_entries.len() && old_entries[j].0@ == q;
                                assert(self.entries@[j].0@ == q);
                            }
                            if exists|j: int|
                                0 <= j < self.entries@.len() && self.entries@[j].0@ == q {
                                let j = choose|j: int|
                                    0 <= j < self.entries@.len() && self.entries@[j].0@ == q;
                                assert(j < n);
                                assert(old_entries[j].0@ == q);
                            }
                        } else {
                            assert(self.entries@[n as int].0@ == q);
                        }
                    }
                    assert forall|q: Seq<char>| #[trigger] self.view_map().contains_key(q) implies self.view_map()[q]
                        == old_map.insert(kv, vv)[q] by {
                        let j = choose|j: int|
                            0 <= j < self.entries@.len() && self.entries@[j].0@ == q;
                        if q != kv {
                            let j0 = choose|j: int|
                                0 <= j < old_entries.len() && old_entries[j].0@ == q;
                            assert(self.entries@[j0].0@ == q);
                            assert(j == j0);
                        } else {
                            assert(self.entries@[n as int].0@ == q);
                            assert(j == n);
                        }
                    }
                    assert(self.view_map() =~= old_map.insert(kv, vv));
                    assert(self.names() =~= old(self).names().push(kv));
                }
            },
        }
    }

    /// The name and value of the `i`-th entry.
    pub fn entry(&self, i: usize) -> (r: (&String, &V))
        requires
            i < self.entries().len(),
        ensures
            r.0@ == self.entries()[i as int].0,
            r.1@ == self.entries()[i as int].1,
            r.0@ == self.names()[i as int],
            self.view_map().contains_key(r.0@),
            self.view_map()[r.0@] == r.1@,
    {
        proof {
            use_type_invariant(self);
            let k = self.entries@[i as int].0@;
            let j = choose|j: int| 0 <= j < self.entries@.len() && self.entries@[j].0@ == k;
            assert(j == i);
        }
        (&self.entries[i].0, &self.entries[i].1)
    }

    /// The entries, in order; each name occurs once.
    pub fn into_entries(self) -> (r: Vec<(String, V)>)
        ensures
            r@.len() == self.entries().len(),
            forall|i: int| 0 <= i < r@.len() ==> (#[trigger] r@[i]).0@ == self.entries()[i].0 && r@[i].1@ == self.entries()[i].1,
            forall|i: int, j: int| 0 <= i < r@.len() && 0 <= j < r@.len() && i != j ==> r@[i].0@ != r@[j].0@,
            forall|i: int| 0 <= i < r@.len() ==> #[trigger] self.view_map().contains_key(r@[i].0@) && self.view_map()[r@[i].0@] == r@[i].1@,
            forall|k: Seq<char>| #[trigger] self.view_map().contains_key(k) ==> exists|i: int| 0 <= i < r@.len() && r@[i].0@ == k,
    {
        proof {
            use_type_invariant(&self);
            assert forall|i: int| 0 <= i < self.entries@.len() implies #[trigger] self.view_map().contains_key(self.entries@[i].0@) && self.view_map()[self.entries@[i].0@] == self.entries@[i].1@ by {
                let k = self.entries@[i].0@;
                let j = choose|j: int| 0 <= j < self.entries@.len() && self.entries@[j].0@ == k;
                assert(j == i);
            }
        }
        self.entries
    }
}

} // verus!
