//! A set of texts.
use vstd::prelude::*;

use crate::text;

verus! {

/// A set of texts that remembers the order in which they came.
pub struct StringSet {
    pub items: Vec<String>,
}

impl View for StringSet {
    type V = Set<Seq<char>>;

    open spec fn view(&self) -> Set<Seq<char>> {
        text::texts(self.items@).to_set()
    }
}

impl StringSet {
    /// Nothing occurs twice.
    pub open spec fn inv(self) -> bool {
        text::texts(self.items@).no_duplicates()
    }

    /// The empty set.
    pub fn new() -> (s: Self)
        ensures
            s.inv(),
            s@ == Set::<Seq<char>>::empty(),
            s.items@.len() == 0,
    {
        let s = StringSet { items: Vec::new() };
        assert(s@ =~= Set::<Seq<char>>::empty());
        s
    }

    /// Whether the set is empty.
    pub fn is_empty(&self) -> (r: bool)
        ensures
            r == (self.items@.len() == 0),
            r == (self@ == Set::<Seq<char>>::empty()),
    {
        proof {
            if self.items@.len() == 0 {
                assert(self@ =~= Set::<Seq<char>>::empty());
            } else {
                assert(text::texts(self.items@)[0] == self.items@[0]@);
                assert(self@.contains(self.items@[0]@));
            }
        }
        self.items.len() == 0
    }

    /// Whether `s` is in the set.
    pub fn contains(&self, s: &str) -> (r: bool)
        ensures
            r == self@.contains(s@),
    {
        text::list_has(&self.items, s)
    }

    /// Puts `s` into the set.
    pub fn insert(&mut self, s: String)
        requires
            old(self).inv(),
        ensures
            final(self).inv(),
            final(self)@ == old(self)@.insert(s@),
    {
        let ghost before = text::texts(self.items@);
        if !self.contains(s.as_str()) {
            let ghost t = s@;
            self.items.push(s);
            let ghost after = text::texts(self.items@);
            assert(after =~= before.push(t));
            assert forall|x: Seq<char>| after.contains(x) <==> before.contains(x) || x == t by {
                if before.contains(x) {
                    let i = choose|i: int| 0 <= i < before.len() && before[i] == x;
                    assert(after[i] == x);
                }
                assert(after[before.len() as int] == t);
            }
            assert(self@ =~= old(self)@.insert(t));
        } else {
            assert(self@ =~= old(self)@.insert(s@));
        }
    }

    /// Takes `s` out of the set.
    pub fn remove(&mut self, s: &str) -> (was: bool)
        requires
            old(self).inv(),
        ensures
            final(self).inv(),
            final(self)@ == old(self)@.remove(s@),
            was == old(self)@.contains(s@),
    {
        let ghost before = text::texts(self.items@);
        let mut i: usize = 0;
        while i < self.items.len()
            invariant
                i <= self.items@.len(),
                self.items == old(self).items,
                before == text::texts(self.items@),
                before.no_duplicates(),
                forall|j: int| 0 <= j < i ==> before[j] != s@,
            decreases self.items@.len() - i,
        {
            if text::str_eq(self.items[i].as_str(), s) {
                assert(before[i as int] == s@);
                assert(before.contains(s@));
                let _ = self.items.remove(i);
                let ghost after = text::texts(self.items@);
                assert(after =~= before.remove(i as int));
                assert forall|x: Seq<char>| after.contains(x) <==> before.contains(x) && x != s@ by {
                    if before.contains(x) && x != s@ {
                        let k = choose|k: int| 0 <= k < before.len() && before[k] == x;
                        let y = if k < i { k } else { k - 1 };
                        assert(after[y] == x);
                    }
                    if after.contains(x) {
                        let k = choose|k: int| 0 <= k < after.len() && after[k] == x;
                        let y = if k < i { k } else { k + 1 };
                        assert(before[y] == x);
                    }
                }
                assert(self@ =~= old(self)@.remove(s@));
                return true;
            }
            i += 1;
        }
        assert(!before.contains(s@));
        assert(self@ =~= old(self)@.remove(s@));
        false
    }

    /// Empties the set.
    pub fn clear(&mut self)
        ensures
            final(self).inv(),
            final(self)@ == Set::<Seq<char>>::empty(),
            final(self).items@.len() == 0,
    {
        self.items.clear();
        assert(self@ =~= Set::<Seq<char>>::empty());
    }
}

} // verus!
