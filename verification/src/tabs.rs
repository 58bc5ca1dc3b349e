//! The open editor tabs and which of them is in front.
use vstd::prelude::*;

use crate::lang;
use crate::path;
use crate::text;

verus! {

/// How many tabs stay open before one that was not used for long gives way.
pub const MAX_TABS: usize = 30;

/// An open file.
pub struct OpenTab {
    /// Number of the tab's editor.
    pub id: u64,
    pub path: String,
    pub title: String,
    pub lang: &'static str,
    pub dirty: bool,
    /// When the tab was last brought to the front.
    pub last_used: u64,
    /// Signature of the diagnostics that were applied last.
    pub diag_sig: u64,
    /// Number of the last change that waits to be reported to the language server.
    pub lsp_change_seq: u64,
}

/// The open tabs.
pub struct TabSet {
    pub tabs: Vec<OpenTab>,
    pub active: Option<usize>,
    /// Number for the next tab's editor.
    pub next_id: u64,
}

/// Whether some tab shows the file `p`.
pub open spec fn shows(tabs: Seq<OpenTab>, p: Seq<char>) -> bool {
    exists|i: int| shows_at(tabs, p, i)
}

/// Whether tab `i` shows the file `p`.
pub open spec fn shows_at(tabs: Seq<OpenTab>, p: Seq<char>, i: int) -> bool {
    0 <= i < tabs.len() && path::same(tabs[i].path@, p)
}

/// Whether tab `i` may give way: saved and not in front.
pub open spec fn evictable(tabs: Seq<OpenTab>, active: Option<usize>, i: int) -> bool {
    &&& 0 <= i < tabs.len()
    &&& !tabs[i].dirty
    &&& active != Some(i as usize)
}

/// Whether tab `i` is the one to give way: the first of those that were not used for longest.
pub open spec fn is_victim(tabs: Seq<OpenTab>, active: Option<usize>, i: int) -> bool {
    &&& evictable(tabs, active, i)
    &&& forall|j: int|
        #[trigger] evictable(tabs, active, j) ==> tabs[i].last_used < tabs[j].last_used || (
        tabs[i].last_used == tabs[j].last_used && i <= j)
}

/// Where position `a` ends up when position `i` is taken out.
pub open spec fn shifted(a: Option<usize>, i: int) -> Option<usize> {
    match a {
        Some(x) => if i < x {
            Some((x - 1) as usize)
        } else {
            Some(x)
        },
        None => None,
    }
}

/// What became of a request to open a tab.
pub struct Inserted {
    /// Position of the tab.
    pub index: usize,
    /// Whether the tab is new.
    pub fresh: bool,
    /// Number of the tab that gave way.
    pub evicted: Option<u64>,
}

/// What opening a tab for file `p` at time `now` leads to: nothing where there is one; else the new
/// tab is the last, and where there were too many, the saved tab that was not used for longest and
/// is not in front gives way, unless there is no such tab.
pub open spec fn inserted(
    before: TabSet,
    after: TabSet,
    p: String,
    now: u64,
    r: Inserted,
) -> bool {
    &&& r.index < after.tabs@.len()
    &&& path::same(after.tabs@[r.index as int].path@, p@)
    &&& r.fresh == !shows(before.tabs@, p@)
    &&& !r.fresh ==> after == before && r.evicted is None
    &&& r.fresh ==> {
        let kept = after.tabs@.drop_last();
        let tab = after.tabs@.last();
        &&& r.index == after.tabs@.len() - 1
        &&& after.next_id == before.next_id + 1
        &&& tab.id == before.next_id
        &&& tab.path == p
        &&& tab.title@ == path::shown_name(p@)
        &&& tab.lang@ == lang::language_of(text::after_last(p@, '.'))
        &&& !tab.dirty
        &&& tab.last_used == now
        &&& tab.diag_sig == 0
        &&& tab.lsp_change_seq == 0
        &&& (r.evicted is None ==> kept == before.tabs@ && after.active == before.active && (
        before.tabs@.len() < MAX_TABS || forall|i: int|
            !#[trigger] evictable(before.tabs@, before.active, i)))
        &&& (r.evicted matches Some(id) ==> before.tabs@.len() >= MAX_TABS && exists|i: int|
            #[trigger] is_victim(before.tabs@, before.active, i) && before.tabs@[i].id == id && kept
                == before.tabs@.remove(i) && after.active == shifted(before.active, i))
    }
}

/// What bringing tab `ix` to the front at time `now` leads to.
pub open spec fn activated(before: TabSet, after: TabSet, ix: int, now: u64) -> bool {
    &&& 0 <= ix < before.tabs@.len()
    &&& after.active == Some(ix as usize)
    &&& after.next_id == before.next_id
    &&& after.tabs@ == before.tabs@.update(
        ix,
        OpenTab { last_used: now, ..before.tabs@[ix] },
    )
}

/// What closing tab `ix` leads to.
pub open spec fn closed_tab(before: TabSet, after: TabSet, ix: int) -> bool {
    &&& 0 <= ix < before.tabs@.len()
    &&& after.tabs@ == before.tabs@.remove(ix)
    &&& after.next_id == before.next_id
    &&& after.active == after_close(before.active, ix, before.tabs@.len() - 1)
}

impl TabSet {
    /// No two tabs show the same file or have the same number, and the tab in front is one of them.
    pub open spec fn inv(self) -> bool {
        &&& forall|i: int, j: int|
            #![trigger self.tabs@[i], self.tabs@[j]]
            0 <= i < j < self.tabs@.len() ==> !path::same(
                self.tabs@[i].path@,
                self.tabs@[j].path@,
            ) && self.tabs@[i].id != self.tabs@[j].id
        &&& forall|i: int| 0 <= i < self.tabs@.len() ==> (#[trigger] self.tabs@[i]).id < self.next_id
        &&& self.active matches Some(a) ==> a < self.tabs@.len()
    }

    /// No tabs.
    pub fn new() -> (s: Self)
        ensures
            s.inv(),
            s.tabs@.len() == 0,
            s.active is None,
            s.next_id == 0,
    {
        TabSet { tabs: Vec::new(), active: None, next_id: 0 }
    }

    /// The tab in front.
    pub open spec fn front(self) -> Option<OpenTab> {
        match self.active {
            Some(a) => Some(self.tabs@[a as int]),
            None => None,
        }
    }

    /// The tab in front.
    pub fn active_tab(&self) -> (r: Option<&OpenTab>)
        requires
            self.inv(),
        ensures
            r is Some <==> self.active is Some,
            r matches Some(t) ==> self.front() == Some(*t),
    {
        match self.active {
            Some(a) => Some(&self.tabs[a]),
            None => None,
        }
    }

    /// Where the tab of file `p` stands.
    pub fn position(&self, p: &str) -> (r: Option<usize>)
        ensures
            r matches Some(i) ==> shows_at(self.tabs@, p@, i as int),
            r is Some <==> shows(self.tabs@, p@),
    {
        let mut i: usize = 0;
        while i < self.tabs.len()
            invariant
                i <= self.tabs@.len(),
                forall|j: int| 0 <= j < i ==> !shows_at(self.tabs@, p@, j),
            decreases self.tabs@.len() - i,
        {
            if path::eq(self.tabs[i].path.as_str(), p) {
                assert(shows_at(self.tabs@, p@, i as int));
                return Some(i);
            }
            i += 1;
        }
        None
    }

    /// Where the tab with number `id` stands.
    pub fn position_of_id(&self, id: u64) -> (r: Option<usize>)
        ensures
            r matches Some(i) ==> i < self.tabs@.len() && self.tabs@[i as int].id == id,
            r is None ==> forall|i: int| 0 <= i < self.tabs@.len() ==> (#[trigger] self.tabs@[i]).id
                != id,
    {
        let mut i: usize = 0;
        while i < self.tabs.len()
            invariant
                i <= self.tabs@.len(),
                forall|j: int| 0 <= j < i ==> (#[trigger] self.tabs@[j]).id != id,
            decreases self.tabs@.len() - i,
        {
            if self.tabs[i].id == id {
                return Some(i);
            }
            i += 1;
        }
        None
    }

    /// The tab that gives way to a new one.
    fn victim(&self) -> (r: Option<usize>)
        requires
            self.inv(),
        ensures
            r matches Some(i) ==> is_victim(self.tabs@, self.active, i as int),
            r is None ==> forall|i: int| !evictable(self.tabs@, self.active, i),
    {
        let mut best: Option<usize> = None;
        let n = self.tabs.len();
        let mut i: usize = 0;
        while i < n
            invariant
                i <= n,
                n == self.tabs@.len(),
                best matches Some(b) ==> b < i && evictable(self.tabs@, self.active, b as int)
                    && forall|j: int|
                    j < i && #[trigger] evictable(self.tabs@, self.active, j) ==> self.tabs@[b as int].last_used
                        < self.tabs@[j].last_used || (self.tabs@[b as int].last_used
                        == self.tabs@[j].last_used && b <= j),
                best is None ==> forall|j: int|
                    j < i ==> !#[trigger] evictable(self.tabs@, self.active, j),
            decreases n - i,
        {
            let in_front = match self.active {
                Some(a) => a == i,
                None => false,
            };
            if !self.tabs[i].dirty && !in_front {
                assert(evictable(self.tabs@, self.active, i as int));
                match best {
                    Some(b) => {
                        if self.tabs[i].last_used < self.tabs[b].last_used {
                            best = Some(i);
                        }
                    },
                    None => {
                        best = Some(i);
                    },
                }
            } else {
                assert(!evictable(self.tabs@, self.active, i as int));
            }
            i += 1;
        }
        best
    }

    /// Opens a tab for file `p` at time `now`, unless there is one. Where there are too many, the
    /// saved tab that was not used for longest and is not in front gives way; where there is no
    /// such tab, all stay.
    pub fn insert_tab(&mut self, p: String, now: u64) -> (r: Inserted)
        requires
            old(self).inv(),
            old(self).next_id < u64::MAX,
            old(self).tabs@.len() < usize::MAX,
        ensures
            final(self).inv(),
            inserted(*old(self), *final(self), p, now, r),
    {
        if let Some(index) = self.position(p.as_str()) {
            return Inserted { index, fresh: false, evicted: None };
        }
        let title = path::display_name(p.as_str());
        let lang = lang::language_for(p.as_str());
        let mut evicted: Option<u64> = None;
        let ghost before = self.tabs@;
        let ghost was = self.active;
        if self.tabs.len() >= MAX_TABS {
            if let Some(v) = self.victim() {
                let gone = self.tabs.remove(v);
                evicted = Some(gone.id);
                if let Some(a) = self.active {
                    if v < a {
                        self.active = Some(a - 1);
                    }
                }
                assert(self.tabs@ =~= before.remove(v as int));
                assert(is_victim(before, was, v as int));
            }
        }
        let ghost kept = self.tabs@;
        proof {
            assert forall|i: int| 0 <= i < kept.len() implies !path::same(
                (#[trigger] kept[i]).path@,
                p@,
            ) by {
                if evicted is None {
                    assert(!shows_at(before, p@, i));
                } else {
                    let v = choose|v: int| is_victim(before, was, v) && kept == before.remove(v);
                    let x = if i < v { i } else { i + 1 };
                    assert(kept[i] == before[x]);
                    assert(!shows_at(before, p@, x));
                }
            }
        }
        let id = self.next_id;
        self.next_id = self.next_id + 1;
        self.tabs.push(
            OpenTab {
                id,
                path: p,
                title,
                lang,
                dirty: false,
                last_used: now,
                diag_sig: 0,
                lsp_change_seq: 0,
            },
        );
        assert(self.tabs@.drop_last() =~= kept);
        Inserted { index: self.tabs.len() - 1, fresh: true, evicted }
    }

    /// Brings tab `ix` to the front at time `now`.
    pub fn activate(&mut self, ix: usize, now: u64) -> (done: bool)
        requires
            old(self).inv(),
        ensures
            final(self).inv(),
            done == (ix < old(self).tabs@.len()),
            !done ==> *final(self) == *old(self),
            done ==> activated(*old(self), *final(self), ix as int, now),
    {
        if ix >= self.tabs.len() {
            return false;
        }
        self.active = Some(ix);
        self.tabs[ix].last_used = now;
        true
    }

    /// Closes tab `ix`. The tab in front stays in front; where it is the one that goes, the next
    /// one comes to the front, or the last.
    pub fn close_at(&mut self, ix: usize) -> (closed: Option<u64>)
        requires
            old(self).inv(),
        ensures
            final(self).inv(),
            closed is Some <==> ix < old(self).tabs@.len(),
            closed is None ==> *final(self) == *old(self),
            closed matches Some(id) ==> id == old(self).tabs@[ix as int].id && closed_tab(
                *old(self),
                *final(self),
                ix as int,
            ),
    {
        if ix >= self.tabs.len() {
            return None;
        }
        let ghost before = self.tabs@;
        let gone = self.tabs.remove(ix);
        assert(self.tabs@ =~= before.remove(ix as int));
        let left = self.tabs.len();
        self.active = if left == 0 {
            None
        } else {
            match self.active {
                Some(a) => if a > ix {
                    Some(a - 1)
                } else if a == ix {
                    Some(
                        if ix < left {
                            ix
                        } else {
                            left - 1
                        },
                    )
                } else {
                    Some(a)
                },
                None => None,
            }
        };
        Some(gone.id)
    }

    /// Closes all tabs.
    pub fn clear(&mut self)
        ensures
            final(self).inv(),
            final(self).tabs@.len() == 0,
            final(self).active is None,
            final(self).next_id == old(self).next_id,
    {
        self.tabs.clear();
        self.active = None;
    }

    /// The paths of the tabs from left to right.
    pub fn paths(&self) -> (r: Vec<String>)
        ensures
            text::texts(r@) == paths_of(self.tabs@),
    {
        let mut out: Vec<String> = Vec::new();
        let ghost all = paths_of(self.tabs@);
        let mut i: usize = 0;
        assert(text::texts(out@) =~= all.take(0));
        while i < self.tabs.len()
            invariant
                i <= self.tabs@.len(),
                all == paths_of(self.tabs@),
                text::texts(out@) == all.take(i as int),
            decreases self.tabs@.len() - i,
        {
            let ghost prev = text::texts(out@);
            out.push(self.tabs[i].path.clone());
            assert(text::texts(out@) =~= prev.push(all[i as int]));
            i += 1;
            assert(text::texts(out@) =~= all.take(i as int));
        }
        assert(all.take(all.len() as int) =~= all);
        out
    }

    /// Marks the tab with number `id` as changed since it was saved.
    pub fn mark_dirty(&mut self, id: u64) -> (changed: bool)
        requires
            old(self).inv(),
        ensures
            final(self).inv(),
            final(self).active == old(self).active,
            final(self).next_id == old(self).next_id,
            final(self).tabs@.len() == old(self).tabs@.len(),
            forall|i: int|
                0 <= i < old(self).tabs@.len() ==> #[trigger] final(self).tabs@[i] == (if old(
                    self,
                ).tabs@[i].id == id {
                    OpenTab { dirty: true, ..old(self).tabs@[i] }
                } else {
                    old(self).tabs@[i]
                }),
            changed <==> exists|i: int|
                0 <= i < old(self).tabs@.len() && (#[trigger] old(self).tabs@[i]).id == id && !old(
                    self,
                ).tabs@[i].dirty,
    {
        match self.position_of_id(id) {
            Some(ix) => {
                if self.tabs[ix].dirty {
                    false
                } else {
                    self.tabs[ix].dirty = true;
                    assert(old(self).tabs@[ix as int].id == id);
                    true
                }
            },
            None => false,
        }
    }

    /// Notes that file `p` was saved.
    pub fn mark_saved(&mut self, p: &str)
        requires
            old(self).inv(),
        ensures
            final(self).inv(),
            final(self).active == old(self).active,
            final(self).next_id == old(self).next_id,
            final(self).tabs@.len() == old(self).tabs@.len(),
            forall|i: int|
                0 <= i < old(self).tabs@.len() ==> #[trigger] final(self).tabs@[i] == (
                if path::same(old(self).tabs@[i].path@, p@) {
                    OpenTab { dirty: false, ..old(self).tabs@[i] }
                } else {
                    old(self).tabs@[i]
                }),
    {
        match self.position(p) {
            Some(ix) => {
                proof {
                    assert forall|i: int| 0 <= i < self.tabs@.len() && i != ix implies !path::same(
                        (#[trigger] self.tabs@[i]).path@,
                        p@,
                    ) by {
                        assert(self.tabs@[ix as int].path@ == self.tabs@[ix as int].path@);
                    }
                }
                self.tabs[ix].dirty = false;
            },
            None => {
                assert forall|i: int| 0 <= i < self.tabs@.len() implies !path::same(
                    (#[trigger] self.tabs@[i]).path@,
                    p@,
                ) by {
                    assert(!shows_at(self.tabs@, p@, i));
                }
            },
        }
    }
}

/// The paths of tabs.
pub open spec fn paths_of(tabs: Seq<OpenTab>) -> Seq<Seq<char>> {
    tabs.map_values(|t: OpenTab| t.path@)
}

/// Which tab is in front once tab `ix` is closed and `left` tabs remain.
pub open spec fn after_close(active: Option<usize>, ix: int, left: int) -> Option<usize> {
    if left == 0 {
        None
    } else {
        match active {
            Some(a) => if a > ix {
                Some((a - 1) as usize)
            } else if a == ix {
                Some(
                    (if ix < left {
                        ix
                    } else {
                        left - 1
                    }) as usize,
                )
            } else {
                Some(a)
            },
            None => None,
        }
    }
}

/// A tab that gives way was saved and was not in front, and the tab in front stays the same.
pub proof fn law_eviction_keeps_changes_and_the_front(
    tabs: Seq<OpenTab>,
    active: Option<usize>,
    i: int,
)
    requires
        is_victim(tabs, active, i),
        active matches Some(a) ==> a < tabs.len(),
    ensures
        !tabs[i].dirty,
        active matches Some(a) ==> {
            let now = shifted(active, i);
            &&& now is Some
            &&& now->0 < tabs.remove(i).len()
            &&& tabs.remove(i)[now->0 as int] == tabs[a as int]
        },
        forall|j: int|
            0 <= j < tabs.len() && (#[trigger] tabs[j]).dirty ==> tabs.remove(i).contains(tabs[j]),
{
    assert forall|j: int| 0 <= j < tabs.len() && (#[trigger] tabs[j]).dirty implies tabs.remove(
        i,
    ).contains(tabs[j]) by {
        let x = if j < i { j } else { j - 1 };
        assert(tabs.remove(i)[x] == tabs[j]);
    }
}

/// Closing a tab that is not in front leaves the tab in front where it is seen.
pub proof fn law_closing_another_tab_keeps_the_front(tabs: Seq<OpenTab>, a: usize, ix: int)
    requires
        0 <= ix < tabs.len(),
        a < tabs.len(),
        a != ix,
    ensures
        ({
            let now = after_close(Some(a), ix, tabs.len() - 1);
            now is Some && tabs.remove(ix)[now->0 as int] == tabs[a as int]
        }),
{
}

/// A file that is open gets no second tab. A new one comes after the others, and only where 30 are open
/// another one makes room for it: one without changes that is not in front, the one that was used
/// longest ago.
pub proof fn law_a_new_tab_comes_last(t: &mut TabSet, p: String, now: u64, r: Inserted, j: int)
    requires
        old(t).inv(),
        old(t).next_id < u64::MAX,
        old(t).tabs@.len() < usize::MAX,
        call_ensures(TabSet::insert_tab, (t, p, now), r),
        0 <= j < old(t).tabs@.len(),
    ensures
        path::same(old(t).tabs@[j].path@, p@) ==> !r.fresh && *final(t) == *old(t) && r.index == j,
        r.fresh ==> final(t).tabs@.last().path == p && r.index == final(t).tabs@.len() - 1
            && !final(t).tabs@.last().dirty,
        r.fresh && old(t).tabs@.len() < 30 ==> r.evicted is None && final(t).tabs@.len()
            == old(t).tabs@.len() + 1 && final(t).tabs@[j] == old(t).tabs@[j] && final(t).active
            == old(t).active,
        r.evicted matches Some(id) ==> old(t).tabs@.len() >= 30 && (old(t).tabs@[j].id == id
            ==> !old(t).tabs@[j].dirty && old(t).active != Some(j as usize)) && (old(t).tabs@[j].id
            != id && !old(t).tabs@[j].dirty && old(t).active != Some(j as usize) ==> exists|i: int|
            0 <= i < old(t).tabs@.len() && (#[trigger] old(t).tabs@[i]).id == id
                && old(t).tabs@[i].last_used <= old(t).tabs@[j].last_used),
{
    let before = *old(t);
    let after = *final(t);
    if path::same(before.tabs@[j].path@, p@) {
        assert(shows_at(before.tabs@, p@, j));
        let k = r.index as int;
        if k < j {
            assert(path::same(before.tabs@[k].path@, before.tabs@[j].path@));
        } else if j < k {
            assert(path::same(before.tabs@[j].path@, before.tabs@[k].path@));
        }
    }
    if r.fresh && before.tabs@.len() < 30 {
        assert(after.tabs@.drop_last()[j] == before.tabs@[j]);
    }
    if let Some(id) = r.evicted {
        let i = choose|i: int|
            #[trigger] is_victim(before.tabs@, before.active, i) && before.tabs@[i].id == id
                && after.tabs@.drop_last() == before.tabs@.remove(i) && after.active == shifted(
                before.active,
                i,
            );
        if before.tabs@[j].id == id && j != i {
            if j < i {
                assert(before.tabs@[j].id != before.tabs@[i].id);
            } else {
                assert(before.tabs@[i].id != before.tabs@[j].id);
            }
        }
        if !before.tabs@[j].dirty && before.active != Some(j as usize) {
            assert(evictable(before.tabs@, before.active, j));
        }
        assert(before.tabs@[i].id == id);
    }
}

/// Bringing a tab to the front notes the time in that tab alone.
pub proof fn law_activating_notes_the_time(t: &mut TabSet, ix: usize, now: u64, done: bool, j: int)
    requires
        old(t).inv(),
        call_ensures(TabSet::activate, (t, ix, now), done),
        0 <= j < old(t).tabs@.len(),
    ensures
        done <==> ix < old(t).tabs@.len(),
        done ==> final(t).active == Some(ix) && final(t).tabs@.len() == old(t).tabs@.len(),
        done && j == ix ==> final(t).tabs@[j].last_used == now && final(t).tabs@[j].path
            == old(t).tabs@[j].path && final(t).tabs@[j].dirty == old(t).tabs@[j].dirty,
        done && j != ix ==> final(t).tabs@[j] == old(t).tabs@[j],
{
}

/// Closing the tab in front brings its right neighbour to the front, or the left one where it was the
/// last.
pub proof fn law_a_neighbour_takes_the_place(t: &mut TabSet, ix: usize, closed: Option<u64>)
    requires
        old(t).inv(),
        call_ensures(TabSet::close_at, (t, ix), closed),
        old(t).active == Some(ix),
        ix < old(t).tabs@.len(),
    ensures
        closed == Some(old(t).tabs@[ix as int].id),
        old(t).tabs@.len() == 1 ==> final(t).active is None,
        ix + 1 < old(t).tabs@.len() ==> final(t).active is Some
            && final(t).tabs@[final(t).active->0 as int] == old(t).tabs@[ix + 1],
        ix + 1 == old(t).tabs@.len() && ix > 0 ==> final(t).active is Some
            && final(t).tabs@[final(t).active->0 as int] == old(t).tabs@[ix - 1],
{
}

} // verus!
