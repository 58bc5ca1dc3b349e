//! The list of recent projects.
use vstd::prelude::*;

use crate::select;
use crate::text;

verus! {

/// What the view asks of its owner.
pub enum RecentsEvent {
    Open(String),
}

/// A row of the list.
pub struct RecentRow {
    pub name: String,
    pub path: String,
    pub selected: bool,
}

/// The recent projects, the latest first.
pub struct RecentsView {
    pub recents: Vec<String>,
    pub selected: usize,
}

impl RecentsView {
    /// The selection is one of the projects.
    pub open spec fn inv(self) -> bool {
        self.selected < self.recents@.len() || self.selected == 0
    }

    /// A view of `recents` with the first one selected.
    pub fn new(recents: Vec<String>) -> (v: Self)
        ensures
            v.inv(),
            v.recents == recents,
            v.selected == 0,
    {
        Self { recents, selected: 0 }
    }

    /// Moves the selection by `delta` projects, around the ends.
    pub fn move_selection(&mut self, delta: i32)
        requires
            old(self).inv(),
        ensures
            final(self).inv(),
            old(self).recents@.len() == 0 ==> *final(self) == *old(self),
            old(self).recents@.len() > 0 ==> *final(self) == (Self {
                selected: final(self).selected,
                ..*old(self)
            }) && final(self).selected == select::wrapped(
                old(self).selected as int,
                delta as int,
                old(self).recents@.len() as int,
            ),
    {
        if self.recents.len() == 0 {
            return;
        }
        self.selected = select::wrap(self.selected, delta, self.recents.len());
    }

    /// Opens the selected project, where there is one.
    pub fn confirm(&self) -> (r: Option<RecentsEvent>)
        requires
            self.inv(),
        ensures
            r is Some <==> self.recents@.len() > 0,
            r matches Some(e) ==> e == RecentsEvent::Open(self.recents@[self.selected as int]),
    {
        if self.selected < self.recents.len() {
            Some(RecentsEvent::Open(self.recents[self.selected].clone()))
        } else {
            None
        }
    }

    /// Selects row `ix` and opens its project.
    pub fn select_and_open(&mut self, ix: usize) -> (r: Option<RecentsEvent>)
        requires
            old(self).inv(),
            ix < old(self).recents@.len(),
        ensures
            final(self).inv(),
            *final(self) == (Self { selected: ix, ..*old(self) }),
            r == Some(RecentsEvent::Open(old(self).recents@[ix as int])),
    {
        self.selected = ix;
        self.confirm()
    }

    /// The rows to draw.
    pub fn rows(&self) -> (rows: Vec<RecentRow>)
        ensures
            rows@.len() == self.recents@.len(),
            forall|i: int|
                0 <= i < rows@.len() ==> {
                    &&& (#[trigger] rows@[i]).name@ == text::after_last(self.recents@[i]@, '/')
                    &&& rows@[i].path@ == self.recents@[i]@
                    &&& rows@[i].selected == (i == self.selected)
                },
    {
        let mut rows: Vec<RecentRow> = Vec::new();
        let mut i: usize = 0;
        while i < self.recents.len()
            invariant
                i <= self.recents@.len(),
                rows@.len() == i,
                forall|j: int|
                    0 <= j < i ==> {
                        &&& (#[trigger] rows@[j]).name@ == text::after_last(self.recents@[j]@, '/')
                        &&& rows@[j].path@ == self.recents@[j]@
                        &&& rows@[j].selected == (j == self.selected)
                    },
            decreases self.recents@.len() - i,
        {
            rows.push(
                RecentRow {
                    name: text::take_after_last(self.recents[i].as_str(), '/'),
                    path: self.recents[i].clone(),
                    selected: i == self.selected,
                },
            );
            i += 1;
        }
        rows
    }
}

/// A row shows the name and the whole path of a file, and return opens the file of the selected row.
pub proof fn law_the_selected_file_is_opened(
    v: RecentsView,
    rows: Vec<RecentRow>,
    r: Option<RecentsEvent>,
    i: int,
)
    requires
        v.inv(),
        call_ensures(RecentsView::rows, (&v,), rows),
        call_ensures(RecentsView::confirm, (&v,), r),
        0 <= i < v.recents@.len(),
    ensures
        rows@.len() == v.recents@.len(),
        rows@[i].path@ == v.recents@[i]@,
        rows@[i].name@.is_suffix_of(v.recents@[i]@) && !rows@[i].name@.contains('/'),
        rows@[i].selected ==> (r matches Some(RecentsEvent::Open(p)) && p@ == rows@[i].path@),
{
    let s = v.recents@[i]@;
    text::lemma_last_index(s, '/');
    let k = text::last_index(s, '/');
    assert(rows@[i].name@ == s.skip(k + 1));
    assert(s.skip(s.len() - rows@[i].name@.len()) =~= rows@[i].name@);
    if rows@[i].name@.contains('/') {
        let j = rows@[i].name@.index_of('/');
        assert(s[k + 1 + j] == '/');
    }
}

/// The selection moves one row down or up, from the last row to the first and back, and nothing else
/// changes.
pub proof fn law_the_selection_moves_by_one(p: &mut RecentsView, q: &mut RecentsView)
    requires
        old(p).inv(),
        old(q).inv(),
        old(p).recents@.len() > 0,
        old(q).recents@.len() > 0,
        call_ensures(RecentsView::move_selection, (p, 1i32), ()),
        call_ensures(RecentsView::move_selection, (q, -1i32), ()),
    ensures
        old(p).selected + 1 < old(p).recents@.len() ==> final(p).selected == old(p).selected + 1,
        old(p).selected + 1 == old(p).recents@.len() ==> final(p).selected == 0,
        old(q).selected > 0 ==> final(q).selected == old(q).selected - 1,
        old(q).selected == 0 ==> final(q).selected == old(q).recents@.len() - 1,
        final(p).recents == old(p).recents,
{
    select::law_a_step_is_undone_by_the_opposite_one(
        old(p).selected as int,
        1,
        old(p).recents@.len() as int,
    );
    select::law_a_step_is_undone_by_the_opposite_one(
        old(q).selected as int,
        -1,
        old(q).recents@.len() as int,
    );
}

} // verus!
