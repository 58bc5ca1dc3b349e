//! A map from paths to values.
use vstd::prelude::*;

use crate::path;

verus! {

/// A map whose keys are paths: two texts of the same path are one key.
pub struct PathMap<V> {
    pub entries: Vec<(String, V)>,
}

/// Whether entry `i` belongs to the path with components `k`.
pub open spec fn entry_of<V>(entries: Seq<(String, V)>, k: Seq<Seq<char>>, i: int) -> bool {
    0 <= i < entries.len() && path::components(entries[i].0@) == k
}

/// Whether the path with components `k` has an entry.
pub open spec fn has_entry<V>(entries: Seq<(String, V)>, k: Seq<Seq<char>>) -> bool {
    exists|i: int| entry_of(entries, k, i)
}

/// The value of the path with components `k`.
pub open spec fn value_of<V>(entries: Seq<(String, V)>, k: Seq<Seq<char>>) -> V {
    entries[choose|i: int| entry_of(entries, k, i)].1
}

impl<V> View for PathMap<V> {
    type V = Map<Seq<Seq<char>>, V>;

    open spec fn view(&self) -> Map<Seq<Seq<char>>, V> {
        Map::new(
            |k: Seq<Seq<char>>| has_entry(self.entries@, k),
            |k: Seq<Seq<char>>| value_of(self.entries@, k),
        )
    }
}

impl<V> PathMap<V> {
    /// No path has two entries.
    pub open spec fn inv(self) -> bool {
        forall|i: int, j: int|
            #![trigger self.entries@[i], self.entries@[j]]
            0 <= i < j < self.entries@.len() ==> path::components(self.entries@[i].0@)
                != path::components(self.entries@[j].0@)
    }

    /// An empty map.
    pub fn new() -> (m: Self)
        ensures
            m.inv(),
            m@ == Map::<Seq<Seq<char>>, V>::empty(),
    {
        let m = Self { entries: Vec::new() };
        proof {
            assert forall|k: Seq<Seq<char>>| !has_entry(m.entries@, k) by {}
            assert(m@ =~= Map::<Seq<Seq<char>>, V>::empty());
        }
        m
    }

    /// Where the entry of `key` stands.
    fn find(&self, key: &str) -> (r: Option<usize>)
        requires
            self.inv(),
        ensures
            r matches Some(i) ==> entry_of(self.entries@, path::components(key@), i as int)
                && self.entries@[i as int].1 == self@[path::components(key@)],
            r is Some <==> has_entry(self.entries@, path::components(key@)),
    {
        let mut i: usize = 0;
        let ghost k = path::components(key@);
        while i < self.entries.len()
            invariant
                i <= self.entries@.len(),
                self.inv(),
                k == path::components(key@),
                forall|j: int| 0 <= j < i ==> !entry_of(self.entries@, k, j),
            decreases self.entries@.len() - i,
        {
            if path::eq(self.entries[i].0.as_str(), key) {
                proof {
                    assert(entry_of(self.entries@, k, i as int));
                    let c = choose|c: int| entry_of(self.entries@, k, c);
                    assert(c == i) by {
                        if c < i {
                            assert(self.entries@[c].0 == self.entries@[c].0);
                        }
                    }
                }
                return Some(i);
            }
            i += 1;
        }
        None
    }

    /// The value of `key`.
    pub fn get(&self, key: &str) -> (r: Option<&V>)
        requires
            self.inv(),
        ensures
            r is Some <==> self@.contains_key(path::components(key@)),
            r matches Some(v) ==> *v == self@[path::components(key@)],
    {
        match self.find(key) {
            Some(i) => Some(&self.entries[i].1),
            None => None,
        }
    }

    /// Takes the entry of `key` out.
    pub fn remove(&mut self, key: &str) -> (r: Option<V>)
        requires
            old(self).inv(),
        ensures
            final(self).inv(),
            final(self)@ == old(self)@.remove(path::components(key@)),
            r is Some <==> old(self)@.contains_key(path::components(key@)),
            r matches Some(v) ==> v == old(self)@[path::components(key@)],
    {
        let ghost before = self.entries@;
        let ghost k = path::components(key@);
        match self.find(key) {
            Some(i) => {
                let (_, v) = self.entries.remove(i);
                proof {
                    let after = self.entries@;
                    assert(after =~= before.remove(i as int));
                    assert forall|a: int, b: int| 0 <= a < b < after.len() implies path::components(
                        #[trigger] after[a].0@,
                    ) != path::components(#[trigger] after[b].0@) by {
                        let x = if a < i { a } else { a + 1 };
                        let y = if b < i { b } else { b + 1 };
                        assert(after[a] == before[x]);
                        assert(after[b] == before[y]);
                    }
                    assert forall|q: Seq<Seq<char>>| q != k implies (#[trigger] has_entry(after, q)
                        <==> has_entry(before, q)) && (has_entry(before, q) ==> value_of(after, q)
                        == value_of(before, q)) by {
                        if has_entry(before, q) {
                            let a = choose|a: int| entry_of(before, q, a);
                            let b = if a < i { a } else { a - 1 };
                            assert(entry_of(after, q, b));
                        }
                        if has_entry(after, q) {
                            let b = choose|b: int| entry_of(after, q, b);
                            let a = if b < i { b } else { b + 1 };
                            assert(entry_of(before, q, a));
                            let c = choose|c: int| entry_of(before, q, c);
                            assert(c == a) by {
                                if c < a {
                                    assert(before[c].0 == before[c].0);
                                }
                                if a < c {
                                    assert(before[c].0 == before[c].0);
                                }
                            }
                        }
                    }
                    assert(!has_entry(after, k)) by {
                        if has_entry(after, k) {
                            let b = choose|b: int| entry_of(after, k, b);
                            let a = if b < i { b } else { b + 1 };
                            assert(after[b] == before[a]);
                            assert(entry_of(before, k, a));
                            assert(before[i as int].0 == before[i as int].0);
                        }
                    }
                    assert(self@ =~= old(self)@.remove(k));
                }
                Some(v)
            },
            None => {
                assert(self@ =~= old(self)@.remove(k));
                None
            },
        }
    }

    /// Gives `key` the value `v`.
    pub fn insert(&mut self, key: String, v: V)
        requires
            old(self).inv(),
        ensures
            final(self).inv(),
            final(self)@ == old(self)@.insert(path::components(key@), v),
    {
        let ghost k = path::components(key@);
        let _ = self.remove(key.as_str());
        let ghost mid = self.entries@;
        let ghost cleared = self@;
        assert(!has_entry(mid, k)) by {
            assert(!cleared.contains_key(k));
        }
        self.entries.push((key, v));
        proof {
            let after = self.entries@;
            assert forall|a: int, b: int| 0 <= a < b < after.len() implies path::components(
                #[trigger] after[a].0@,
            ) != path::components(#[trigger] after[b].0@) by {
                if b == mid.len() {
                    assert(!entry_of(mid, k, a));
                } else {
                    assert(mid[a].0 == after[a].0 && mid[b].0 == after[b].0);
                }
            }
            assert(entry_of(after, k, mid.len() as int));
            let w = choose|w: int| entry_of(after, k, w);
            assert(w == mid.len()) by {
                if w < mid.len() {
                    assert(entry_of(mid, k, w));
                }
            }
            assert forall|q: Seq<Seq<char>>| q != k implies (#[trigger] has_entry(after, q)
                <==> has_entry(mid, q)) && (has_entry(mid, q) ==> value_of(after, q) == value_of(
                mid,
                q,
            )) by {
                if has_entry(mid, q) {
                    let a = choose|a: int| entry_of(mid, q, a);
                    assert(entry_of(after, q, a));
                }
                if has_entry(after, q) {
                    let b = choose|b: int| entry_of(after, q, b);
                    assert(entry_of(mid, q, b));
                    let c = choose|c: int| entry_of(mid, q, c);
                    assert(c == b) by {
                        if c < b {
                            assert(after[c].0 == after[c].0 && after[b].0 == after[b].0);
                        }
                        if b < c {
                            assert(after[c].0 == after[c].0 && after[b].0 == after[b].0);
                        }
                    }
                }
            }
            assert(value_of(after, k) == v);
            assert forall|q: Seq<Seq<char>>| q != k implies (#[trigger] self@.contains_key(q)
                <==> old(self)@.contains_key(q)) && (self@.contains_key(q) ==> self@[q] == old(
                self,
            )@[q]) by {
                assert(has_entry(after, q) <==> has_entry(mid, q));
                assert(cleared.contains_key(q) <==> has_entry(mid, q));
                assert(cleared.contains_key(q) <==> old(self)@.contains_key(q));
                if cleared.contains_key(q) {
                    assert(cleared[q] == value_of(mid, q));
                    assert(cleared[q] == old(self)@[q]);
                }
            }
            assert(has_entry(after, k));
            assert(self@.contains_key(k));
            assert(self@ =~= old(self)@.insert(k, v));
        }
    }
}

} // verus!
