//! Navigation history: where the cursor has been, per project.
use vstd::prelude::*;

use crate::path;
use crate::path_map::PathMap;

verus! {

/// How many places the history keeps.
pub const MAX_HISTORY: usize = 100;

/// A place: a file and a line, counted from 0.
pub struct NavLoc {
    pub path: String,
    pub line: u32,
}

impl Clone for NavLoc {
    fn clone(&self) -> (r: Self)
        ensures
            r == *self,
    {
        NavLoc { path: self.path.clone(), line: self.line }
    }
}

/// Whether two places are the same.
pub open spec fn same_loc(a: NavLoc, b: NavLoc) -> bool {
    path::same(a.path@, b.path@) && a.line == b.line
}

/// Whether two places are the same.
pub fn loc_eq(a: &NavLoc, b: &NavLoc) -> (r: bool)
    ensures
        r == same_loc(*a, *b),
{
    a.line == b.line && path::eq(a.path.as_str(), b.path.as_str())
}

/// The places visited in one project and the current one among them.
pub struct NavState {
    pub history: Vec<NavLoc>,
    /// Position of the current place, `-1` before the first.
    pub index: i32,
    /// Set while a place of the history is being opened again.
    pub restoring: bool,
}

/// The history once `loc` has been visited: unchanged where it is the current place, else the
/// places after the current one give way to it, and the oldest place goes where there are too many.
pub open spec fn visited(history: Seq<NavLoc>, index: int, loc: NavLoc) -> (Seq<NavLoc>, int) {
    if 0 <= index < history.len() && same_loc(history[index], loc) {
        (history, index)
    } else {
        let grown = history.take(index + 1).push(loc);
        let kept = if grown.len() > MAX_HISTORY {
            grown.drop_first()
        } else {
            grown
        };
        (kept, kept.len() - 1)
    }
}

/// The history once a jump from `leave` to `target` has been made.
pub open spec fn jumped(
    history: Seq<NavLoc>,
    index: int,
    leave: Option<NavLoc>,
    target: NavLoc,
) -> (Seq<NavLoc>, int) {
    match leave {
        Some(l) => {
            let (h, i) = visited(history, index, l);
            visited(h, i, target)
        },
        None => visited(history, index, target),
    }
}

/// No two neighbouring places are the same.
pub open spec fn no_repeats(history: Seq<NavLoc>) -> bool {
    forall|i: int, j: int|
        0 <= i && j == i + 1 && j < history.len() ==> !same_loc(
            #[trigger] history[i],
            #[trigger] history[j],
        )
}

/// A history that visits can have led to.
pub open spec fn valid_history(history: Seq<NavLoc>, index: int) -> bool {
    &&& history.len() <= MAX_HISTORY
    &&& -1 <= index < history.len()
    &&& (index == -1 ==> history.len() == 0)
    &&& no_repeats(history)
}

proof fn lemma_visited_valid(history: Seq<NavLoc>, index: int, loc: NavLoc)
    requires
        valid_history(history, index),
    ensures
        valid_history(visited(history, index, loc).0, visited(history, index, loc).1),
{
    let (h, i) = visited(history, index, loc);
    if !(0 <= index < history.len() && same_loc(history[index], loc)) {
        let grown = history.take(index + 1).push(loc);
        assert forall|a: int, b: int| 0 <= a && b == a + 1 && b < h.len() implies !same_loc(
            #[trigger] h[a],
            #[trigger] h[b],
        ) by {
            let x = if grown.len() > MAX_HISTORY { a + 1 } else { a };
            let y = x + 1;
            assert(h[a] == grown[x]);
            assert(h[b] == grown[y]);
            assert(grown[x] == history[x]);
            if y < index + 1 {
                assert(grown[y] == history[y]);
            }
        }
    }
}

impl NavState {
    /// The history is one that visits can have led to.
    pub open spec fn inv(self) -> bool {
        valid_history(self.history@, self.index as int)
    }

    /// No place yet.
    pub fn new() -> (s: Self)
        ensures
            s.inv(),
            s.history@.len() == 0,
            s.index == -1,
            !s.restoring,
    {
        NavState { history: Vec::new(), index: -1, restoring: false }
    }

    /// Visits `loc`.
    pub fn nav_push(&mut self, loc: NavLoc)
        requires
            old(self).inv(),
        ensures
            final(self).inv(),
            (final(self).history@, final(self).index as int) == visited(
                old(self).history@,
                old(self).index as int,
                loc,
            ),
            final(self).restoring == old(self).restoring,
    {
        proof {
            lemma_visited_valid(self.history@, self.index as int, loc);
        }
        if self.index >= 0 {
            let top: usize = self.index as usize;
            if loc_eq(&self.history[top], &loc) {
                return;
            }
        }
        let keep: usize = (self.index + 1) as usize;
        self.history.truncate(keep);
        assert(self.history@ =~= old(self).history@.take(old(self).index + 1));
        self.history.push(loc);
        let ghost grown = self.history@;
        if self.history.len() > MAX_HISTORY {
            let _ = self.history.remove(0);
            assert(self.history@ =~= grown.drop_first());
        }
        self.index = self.history.len() as i32 - 1;
    }

    /// Records a jump to `target` away from `leave`, unless a place of the history is being opened
    /// again.
    pub fn nav_record_jump(&mut self, leave: Option<NavLoc>, target: NavLoc)
        requires
            old(self).inv(),
        ensures
            final(self).inv(),
            old(self).restoring ==> *final(self) == *old(self),
            !old(self).restoring ==> (final(self).history@, final(self).index as int) == jumped(
                old(self).history@,
                old(self).index as int,
                leave,
                target,
            ),
            final(self).restoring == old(self).restoring,
    {
        if self.restoring {
            return;
        }
        if let Some(l) = leave {
            self.nav_push(l);
        }
        self.nav_push(target);
    }

    /// Steps back to the place before the current one.
    pub fn back(&mut self) -> (r: Option<NavLoc>)
        requires
            old(self).inv(),
        ensures
            final(self).inv(),
            r is Some <==> old(self).index > 0,
            r is None ==> *final(self) == *old(self),
            r matches Some(loc) ==> loc == old(self).history@[old(self).index - 1],
            r is Some ==> *final(self) == (NavState {
                index: (old(self).index - 1) as i32,
                ..*old(self)
            }),
    {
        if self.index <= 0 {
            return None;
        }
        self.index = self.index - 1;
        Some(self.history[self.index as usize].clone())
    }

    /// Steps forward to the place after the current one.
    pub fn forward(&mut self) -> (r: Option<NavLoc>)
        requires
            old(self).inv(),
        ensures
            final(self).inv(),
            r is Some <==> 0 <= old(self).index && old(self).index + 1 < old(self).history@.len(),
            r is None ==> *final(self) == *old(self),
            r matches Some(loc) ==> loc == old(self).history@[old(self).index + 1],
            r is Some ==> *final(self) == (NavState {
                index: (old(self).index + 1) as i32,
                ..*old(self)
            }),
    {
        if self.index < 0 || self.index + 1 >= self.history.len() as i32 {
            return None;
        }
        self.index = self.index + 1;
        Some(self.history[self.index as usize].clone())
    }
}

/// Stepping back and then forward leads to the place where it began, and changes nothing else.
pub proof fn law_back_then_forward(history: Seq<NavLoc>, index: int)
    requires
        valid_history(history, index),
        index > 0,
    ensures
        valid_history(history, index - 1),
        0 <= index - 1 && (index - 1) + 1 < history.len(),
        history[(index - 1) + 1] == history[index],
{
}

/// After a jump the current place is the target, and there is nothing to step forward to unless the
/// jump led to where it began.
pub proof fn law_jump_ends_at_the_target(
    history: Seq<NavLoc>,
    index: int,
    leave: Option<NavLoc>,
    target: NavLoc,
)
    requires
        valid_history(history, index),
    ensures
        ({
            let (h, i) = jumped(history, index, leave, target);
            &&& valid_history(h, i)
            &&& 0 <= i < h.len()
            &&& same_loc(h[i], target)
            &&& (match leave {
                Some(l) => !same_loc(l, target),
                None => index < 0 || !same_loc(history[index], target),
            } ==> i == h.len() - 1)
        }),
{
    match leave {
        Some(l) => {
            lemma_visited_valid(history, index, l);
            let (h, i) = visited(history, index, l);
            assert(same_loc(h[i], l));
            lemma_visited_valid(h, i, target);
        },
        None => {
            lemma_visited_valid(history, index, target);
        },
    }
}

/// After a jump away from a known place, one step back leads to that place.
pub proof fn law_back_after_jump_returns(
    history: Seq<NavLoc>,
    index: int,
    leave: NavLoc,
    target: NavLoc,
)
    requires
        valid_history(history, index),
        !same_loc(leave, target),
    ensures
        ({
            let (h, i) = jumped(history, index, Some(leave), target);
            i > 0 && same_loc(h[i - 1], leave)
        }),
{
    lemma_visited_valid(history, index, leave);
    let (h, i) = visited(history, index, leave);
    assert(same_loc(h[i], leave));
    assert(!same_loc(h[i], target));
    let grown = h.take(i + 1).push(target);
    assert(grown[i] == h[i]);
}

/// What the projects that are not open have visited, by their roots.
pub struct NavArchive {
    pub saved: PathMap<(Vec<NavLoc>, i32)>,
}

impl NavArchive {
    /// Every saved history is one that visits can have led to.
    pub open spec fn inv(self) -> bool {
        &&& self.saved.inv()
        &&& forall|k: Seq<Seq<char>>|
            #[trigger] self.saved@.contains_key(k) ==> valid_history(
                self.saved@[k].0@,
                self.saved@[k].1 as int,
            )
    }

    /// Nothing saved yet.
    pub fn new() -> (a: Self)
        ensures
            a.inv(),
            a.saved@ == Map::<Seq<Seq<char>>, (Vec<NavLoc>, i32)>::empty(),
    {
        NavArchive { saved: PathMap::new() }
    }

    /// Leaves the project at `from`, whose history is saved (unless that path is empty), for the
    /// project at `to`, whose history is taken out again.
    pub fn switch(&mut self, nav: NavState, from: &str, to: &str) -> (r: NavState)
        requires
            old(self).inv(),
            nav.inv(),
        ensures
            final(self).inv(),
            r.inv(),
            !r.restoring,
            ({
                let all = if from@.len() == 0 {
                    old(self).saved@
                } else {
                    old(self).saved@.insert(path::components(from@), (nav.history, nav.index))
                };
                let k = path::components(to@);
                &&& final(self).saved@ == all.remove(k)
                &&& (all.contains_key(k) ==> (r.history, r.index) == all[k])
                &&& (!all.contains_key(k) ==> r.history@.len() == 0 && r.index == -1)
            }),
    {
        if text_nonempty(from) {
            self.saved.insert(from.to_owned(), (nav.history, nav.index));
        }
        match self.saved.remove(to) {
            Some((history, index)) => NavState { history, index, restoring: false },
            None => NavState { history: Vec::new(), index: -1, restoring: false },
        }
    }
}

fn text_nonempty(s: &str) -> (r: bool)
    ensures
        r == (s@.len() > 0),
{
    crate::text::first_char(s).is_some()
}

/// Leaving a project for another and coming back gives its history back.
pub proof fn law_history_survives_a_round_trip(
    saved: Map<Seq<Seq<char>>, (Vec<NavLoc>, i32)>,
    a: Seq<char>,
    b: Seq<char>,
    mine: (Vec<NavLoc>, i32),
    theirs: (Vec<NavLoc>, i32),
)
    requires
        a.len() > 0,
        b.len() > 0,
        !path::same(a, b),
    ensures
        ({
            let away = saved.insert(path::components(a), mine).remove(path::components(b));
            let back = away.insert(path::components(b), theirs);
            back.contains_key(path::components(a)) && back[path::components(a)] == mine
        }),
{
}

/// Going to a new place forgets what lay ahead and keeps what lay behind, up to 100 places; going to
/// where one is changes nothing.
pub proof fn law_a_new_place_follows_the_current_one(s: &mut NavState, loc: NavLoc, j: int)
    requires
        old(s).inv(),
        call_ensures(NavState::nav_push, (s, loc), ()),
        0 <= j <= old(s).index,
    ensures
        path::same(old(s).history@[old(s).index as int].path@, loc.path@)
            && old(s).history@[old(s).index as int].line == loc.line ==> final(s).history@
            == old(s).history@ && final(s).index == old(s).index,
        !(path::same(old(s).history@[old(s).index as int].path@, loc.path@)
            && old(s).history@[old(s).index as int].line == loc.line) ==> {
            &&& final(s).history@.last() == loc
            &&& final(s).index == final(s).history@.len() - 1
            &&& old(s).index + 1 < 100 ==> final(s).history@.len() == old(s).index + 2
                && final(s).history@[j] == old(s).history@[j]
            &&& old(s).index + 1 == 100 && j > 0 ==> final(s).history@[j - 1] == old(s).history@[j]
        },
        final(s).history@.len() <= 100,
{
}

/// Going back and then forward ends where it began.
pub proof fn law_back_and_forward_return(a: &mut NavState, back: Option<NavLoc>, b: &mut NavState, forth: Option<NavLoc>)
    requires
        old(a).inv(),
        call_ensures(NavState::back, (a,), back),
        *old(b) == *final(a),
        call_ensures(NavState::forward, (b,), forth),
        back is Some,
    ensures
        forth == Some(old(a).history@[old(a).index as int]),
        final(b).index == old(a).index && final(b).history@ == old(a).history@,
        back->0 == old(a).history@[old(a).index - 1],
{
}

} // verus!
