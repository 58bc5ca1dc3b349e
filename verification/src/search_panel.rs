//! Search in all files of a project, with a preview of the selected hit.
use vstd::prelude::*;

use crate::preview;
use crate::preview::{PreviewPane, PreviewStep};
use crate::select;
use crate::text;

verus! {

/// How many hits are listed.
pub const MAX_SHOWN: usize = 100;

/// How many hits a search asks for.
pub const MAX_HITS: usize = 500;

/// One hit; line and column count from 0.
pub struct SearchResult {
    pub path: String,
    pub line: u32,
    pub column: u32,
    pub text: String,
}

/// What the panel asks of its owner.
pub enum SearchEvent {
    Open { path: String, line: u32, column: u32 },
}

/// A search to run.
pub struct SearchRequest {
    pub seq: u64,
    pub root: String,
    pub query: String,
    pub case_sensitive: bool,
    pub limit: usize,
}

/// A row of the hit list.
pub struct SearchRow {
    pub code: String,
    pub place: String,
    pub selected: bool,
}

/// The search panel.
pub struct SearchPanel {
    pub project_root: String,
    pub results: Vec<SearchResult>,
    pub selected: usize,
    pub searching: bool,
    /// Number of the last query.
    pub query_seq: u64,
    pub preview: PreviewPane,
}

/// How many hits can be selected.
pub open spec fn listed(n: int) -> int {
    if n < MAX_SHOWN {
        n
    } else {
        MAX_SHOWN as int
    }
}

/// The preview of the hit `selected`: `after` is what `before` turns into, and `step` is what is
/// left to do.
pub open spec fn previews(
    before: PreviewPane,
    hit: Option<SearchResult>,
    after: PreviewPane,
    step: PreviewStep,
) -> bool {
    preview::turns_to(
        before,
        match hit {
            Some(h) => Some((h.path@, h.line as int)),
            None => None,
        },
        after,
        step,
    )
}

impl SearchPanel {
    /// The selection is one of the listed hits, and the preview is in order.
    pub open spec fn inv(self) -> bool {
        &&& self.selected < listed(self.results@.len() as int) || self.selected == 0
        &&& self.preview.inv()
    }

    /// The selected hit.
    pub open spec fn hit(self) -> Option<SearchResult> {
        if self.selected < self.results@.len() {
            Some(self.results@[self.selected as int])
        } else {
            None
        }
    }

    /// An empty panel for the project at `project_root`.
    pub fn new(project_root: String) -> (p: Self)
        ensures
            p.inv(),
            p.project_root == project_root,
            p.results@.len() == 0,
            p.selected == 0,
            !p.searching,
            p.query_seq == 0,
            p.preview.doc is None,
            p.preview.seq == 0,
    {
        Self {
            project_root,
            results: Vec::new(),
            selected: 0,
            searching: false,
            query_seq: 0,
            preview: PreviewPane::new(),
        }
    }

    /// Shows the selected hit in the preview.
    pub fn load_preview(&mut self) -> (step: PreviewStep)
        requires
            old(self).inv(),
            old(self).preview.seq < u64::MAX,
        ensures
            final(self).inv(),
            *final(self) == (Self { preview: final(self).preview, ..*old(self) }),
            previews(old(self).preview, old(self).hit(), final(self).preview, step),
    {
        if self.selected < self.results.len() {
            let path = self.results[self.selected].path.clone();
            let line = self.results[self.selected].line as usize;
            self.preview.show(path.as_str(), line)
        } else {
            self.preview.clear()
        }
    }

    /// What a changed query leads to: the list is emptied at once where the query is blank, else
    /// there is something to search for.
    pub open spec fn started(
        before: Self,
        after: Self,
        query: Seq<char>,
        r: Option<SearchRequest>,
    ) -> bool {
        &&& after.query_seq == before.query_seq + 1
        &&& after.project_root == before.project_root
        &&& after.preview == before.preview
        &&& r is Some <==> !text::all_white(query)
        &&& r is None ==> after.results@.len() == 0 && after.selected == 0 && !after.searching
        &&& r matches Some(q) ==> {
            &&& after.results == before.results
            &&& after.selected == before.selected
            &&& after.searching
            &&& q.seq == after.query_seq
            &&& q.root == before.project_root
            &&& q.query@ == query
            &&& !q.case_sensitive
            &&& q.limit == MAX_HITS
        }
    }

    /// What the end of search `seq` leads to: its hits are listed, and none where it failed, unless
    /// the query has changed since.
    pub open spec fn finished(
        before: Self,
        after: Self,
        seq: u64,
        hits: Result<Vec<SearchResult>, String>,
        step: Option<PreviewStep>,
    ) -> bool {
        &&& step is Some <==> seq == before.query_seq
        &&& step is None ==> after == before
        &&& step matches Some(s) ==> {
            &&& (hits matches Ok(v) ==> after.results == v)
            &&& (hits is Err ==> after.results@.len() == 0)
            &&& after.selected == 0
            &&& !after.searching
            &&& after.query_seq == before.query_seq
            &&& after.project_root == before.project_root
            &&& previews(before.preview, after.hit(), after.preview, s)
        }
    }

    /// What moving the selection by `delta` listed hits leads to.
    pub open spec fn moved(
        before: Self,
        after: Self,
        delta: int,
        step: Option<PreviewStep>,
    ) -> bool {
        &&& step is Some <==> before.results@.len() > 0
        &&& step is None ==> after == before
        &&& step matches Some(s) ==> {
            &&& after == (Self { selected: after.selected, preview: after.preview, ..before })
            &&& after.selected == select::wrapped(
                before.selected as int,
                delta,
                listed(before.results@.len() as int),
            )
            &&& previews(before.preview, after.hit(), after.preview, s)
        }
    }

    /// The query changed: what to search for. A blank query empties the list at once. Either way
    /// every search before this one is out of date.
    pub fn start_search(&mut self, query: &str) -> (r: Option<SearchRequest>)
        requires
            old(self).inv(),
            old(self).query_seq < u64::MAX,
        ensures
            final(self).inv(),
            Self::started(*old(self), *final(self), query@, r),
    {
        self.query_seq = self.query_seq + 1;
        if text::is_blank(query) {
            self.results = Vec::new();
            self.selected = 0;
            self.searching = false;
            return None;
        }
        self.searching = true;
        Some(
            SearchRequest {
                seq: self.query_seq,
                root: self.project_root.clone(),
                query: query.to_owned(),
                case_sensitive: false,
                limit: MAX_HITS,
            },
        )
    }

    /// Search `seq` is done: lists its hits (none where it failed), unless the query has changed
    /// since.
    pub fn finish_search(
        &mut self,
        seq: u64,
        hits: Result<Vec<SearchResult>, String>,
    ) -> (step: Option<PreviewStep>)
        requires
            old(self).inv(),
            old(self).preview.seq < u64::MAX,
        ensures
            final(self).inv(),
            Self::finished(*old(self), *final(self), seq, hits, step),
    {
        if self.query_seq != seq {
            return None;
        }
        self.results = match hits {
            Ok(v) => v,
            Err(_) => Vec::new(),
        };
        self.selected = 0;
        let step = self.load_preview();
        self.searching = false;
        Some(step)
    }

    /// Moves the selection by `delta` listed hits, around the ends.
    pub fn move_selection(&mut self, delta: i32) -> (step: Option<PreviewStep>)
        requires
            old(self).inv(),
            old(self).preview.seq < u64::MAX,
        ensures
            final(self).inv(),
            Self::moved(*old(self), *final(self), delta as int, step),
    {
        let len: usize = if self.results.len() < MAX_SHOWN {
            self.results.len()
        } else {
            MAX_SHOWN
        };
        if len == 0 {
            return None;
        }
        self.selected = select::wrap(self.selected, delta, len);
        Some(self.load_preview())
    }

    /// Opens the selected hit, where there is one.
    pub fn confirm(&self) -> (r: Option<SearchEvent>)
        ensures
            r is Some <==> self.hit() is Some,
            r matches Some(e) ==> e == (SearchEvent::Open {
                path: self.hit()->0.path,
                line: self.hit()->0.line,
                column: self.hit()->0.column,
            }),
    {
        if self.selected < self.results.len() {
            let h = &self.results[self.selected];
            Some(SearchEvent::Open { path: h.path.clone(), line: h.line, column: h.column })
        } else {
            None
        }
    }

    /// Selects row `ix` and opens its hit.
    pub fn select_and_open(&mut self, ix: usize) -> (r: Option<SearchEvent>)
        requires
            old(self).inv(),
            ix < listed(old(self).results@.len() as int),
        ensures
            final(self).inv(),
            *final(self) == (Self { selected: ix, ..*old(self) }),
            r == Some(
                SearchEvent::Open {
                    path: old(self).results@[ix as int].path,
                    line: old(self).results@[ix as int].line,
                    column: old(self).results@[ix as int].column,
                },
            ),
    {
        self.selected = ix;
        self.confirm()
    }

    /// A path relative to the project.
    pub fn rel(&self, abs: &str) -> (r: String)
        ensures
            r@ == text::relative_to(self.project_root@, abs@),
    {
        text::rel_of(self.project_root.as_str(), abs)
    }

    /// The rows to draw.
    pub fn rows(&self) -> (rows: Vec<SearchRow>)
        ensures
            rows@.len() == listed(self.results@.len() as int),
            forall|i: int|
                0 <= i < rows@.len() ==> {
                    let h = self.results@[i];
                    &&& (#[trigger] rows@[i]).code@ == h.text@
                    &&& rows@[i].place@ == text::relative_to(self.project_root@, h.path@) + " "@
                        + text::dec((h.line + 1) as nat)
                    &&& rows@[i].selected == (i == self.selected)
                },
    {
        let mut rows: Vec<SearchRow> = Vec::new();
        let len: usize = if self.results.len() < MAX_SHOWN {
            self.results.len()
        } else {
            MAX_SHOWN
        };
        let mut i: usize = 0;
        while i < len
            invariant
                i <= len <= self.results@.len(),
                rows@.len() == i,
                forall|j: int|
                    0 <= j < i ==> {
                        let h = self.results@[j];
                        &&& (#[trigger] rows@[j]).code@ == h.text@
                        &&& rows@[j].place@ == text::relative_to(self.project_root@, h.path@)
                            + " "@ + text::dec((h.line + 1) as nat)
                        &&& rows@[j].selected == (j == self.selected)
                    },
            decreases len - i,
        {
            let h = &self.results[i];
            let rel = self.rel(h.path.as_str());
            let number = text::dec_u64(h.line as u64 + 1);
            rows.push(
                SearchRow {
                    code: h.text.clone(),
                    place: text::cat3(rel.as_str(), " ", number.as_str()),
                    selected: i == self.selected,
                },
            );
            i += 1;
        }
        rows
    }

    /// The line above the hits: that the search is running, or how many hits there are.
    pub fn summary(&self) -> (r: String)
        ensures
            r@ == (if self.searching {
                "搜索中…"@
            } else if self.results@.len() > MAX_SHOWN {
                text::dec(self.results@.len()) + " 个结果(显示前 "@ + text::dec(
                    MAX_SHOWN as nat,
                ) + ")"@
            } else {
                text::dec(self.results@.len()) + " 个结果"@
            }),
    {
        let total = self.results.len();
        let n = text::dec_usize(total);
        if self.searching {
            "搜索中…".to_owned()
        } else if total > MAX_SHOWN {
            text::cat4(n.as_str(), " 个结果(显示前 ", text::dec_usize(MAX_SHOWN).as_str(), ")")
        } else {
            text::cat2(n.as_str(), " 个结果")
        }
    }
}

/// Of two searches the result of the earlier one changes nothing, whether it arrives before or after
/// that of the later one: `panel` is the panel in either case. A blank query empties the list at
/// once, and nothing is searched for.
pub proof fn law_an_earlier_search_changes_nothing(
    before: SearchPanel,
    first: Seq<char>,
    early: SearchRequest,
    between: SearchPanel,
    second: Seq<char>,
    late: Option<SearchRequest>,
    begun: SearchPanel,
    panel: SearchPanel,
    hits: Result<Vec<SearchResult>, String>,
    after: SearchPanel,
    step: Option<PreviewStep>,
)
    requires
        SearchPanel::started(before, between, first, Some(early)),
        SearchPanel::started(between, begun, second, late),
        panel.query_seq == begun.query_seq,
        SearchPanel::finished(panel, after, early.seq, hits, step),
    ensures
        after == panel,
        step is None,
        text::all_white(second) ==> late is None && begun.results@.len() == 0 && begun.selected == 0
            && !begun.searching,
{
}

/// The result of the later of two searches is listed, with its first hit selected, whether or not
/// that of the earlier one has arrived: `panel` is the panel in either case.
pub proof fn law_the_last_search_is_listed(
    between: SearchPanel,
    query: Seq<char>,
    late: SearchRequest,
    begun: SearchPanel,
    panel: SearchPanel,
    hits: Result<Vec<SearchResult>, String>,
    after: SearchPanel,
    step: Option<PreviewStep>,
)
    requires
        SearchPanel::started(between, begun, query, Some(late)),
        panel.query_seq == begun.query_seq,
        SearchPanel::finished(panel, after, late.seq, hits, step),
    ensures
        hits matches Ok(v) ==> after.results == v,
        hits is Err ==> after.results@.len() == 0,
        after.selected == 0,
        !after.searching,
        after.query_seq == begun.query_seq,
{
}

/// Moving the selection and moving it back by as much selects the same hit again, and on the way
/// only a listed hit. An empty list stays as it is.
pub proof fn law_moving_there_and_back(
    before: SearchPanel,
    delta: int,
    between: SearchPanel,
    there: Option<PreviewStep>,
    after: SearchPanel,
    back: Option<PreviewStep>,
)
    requires
        before.inv(),
        SearchPanel::moved(before, between, delta, there),
        SearchPanel::moved(between, after, -delta, back),
    ensures
        after.selected == before.selected,
        after.results == before.results,
        before.results@.len() > 0 ==> between.selected < listed(before.results@.len() as int),
        before.results@.len() == 0 ==> after == before,
{
    if before.results@.len() > 0 {
        select::law_there_and_back(
            before.selected as int,
            delta,
            listed(before.results@.len() as int),
        );
    }
}

/// A row tells where its hit is: the path below the project, a space and the number of the line,
/// counted from 1. No more than 100 rows are shown.
pub proof fn law_rows_tell_where_hits_are(p: SearchPanel, rows: Vec<SearchRow>, i: int, below: Seq<char>)
    requires
        call_ensures(SearchPanel::rows, (&p,), rows),
        0 <= i < rows@.len(),
        below.len() > 0 ==> below[0] != '/',
        p.results@[i].path@ == p.project_root@ + seq!['/'] + below,
    ensures
        rows@.len() <= 100,
        rows@.len() < 100 ==> rows@.len() == p.results@.len(),
        rows@[i].place@ == below + " "@ + text::dec((p.results@[i].line + 1) as nat),
        rows@[i].code@ == p.results@[i].text@,
        rows@[i].selected <==> i == p.selected,
{
    let s = p.project_root@ + seq!['/'] + below;
    let other = seq![if p.project_root@.len() > 0 && p.project_root@[0] == 'a' {
        'b'
    } else {
        'a'
    }];
    if p.project_root@.len() > 0 {
        assert(other[0] != p.project_root@[0]);
        assert(!p.project_root@.is_prefix_of(other));
        text::law_relative_below_the_root(p.project_root@, below, other);
    } else {
        assert(s.skip(0) =~= s);
        assert(s =~= seq!['/'] + below);
        assert(s.drop_first() =~= below);
        text::law_leading_characters_go(below, '/');
        assert(text::without_leading(below, '/') =~= below);
    }
}

/// A search looks for what was typed in the open project, whatever the case, and asks for 500 hits
/// at most. A blank query is not searched for.
pub proof fn law_what_is_searched_for(p: &mut SearchPanel, query: &str, r: Option<SearchRequest>)
    requires
        old(p).inv(),
        old(p).query_seq < u64::MAX,
        call_ensures(SearchPanel::start_search, (p, query), r),
    ensures
        r is None <==> text::trimmed(query@).len() == 0,
        r matches Some(q) ==> q.query@ == query@ && q.root@ == old(p).project_root@
            && !q.case_sensitive && q.limit == 500 && q.seq == final(p).query_seq,
        r is None ==> final(p).results@.len() == 0 && !final(p).searching,
        r is Some ==> final(p).searching,
        final(p).query_seq != old(p).query_seq,
{
    text::lemma_trimmed_empty(query@);
}

/// Return opens the hit that is selected, at its line and column.
pub proof fn law_return_opens_the_selected_hit(p: SearchPanel, r: Option<SearchEvent>)
    requires
        p.inv(),
        call_ensures(SearchPanel::confirm, (&p,), r),
    ensures
        r is None <==> p.results@.len() == 0,
        r matches Some(SearchEvent::Open { path, line, column }) ==> {
            let h = p.results@[p.selected as int];
            path == h.path && line == h.line && column == h.column
        },
{
}

/// The summary tells how many hits there are, not how many rows.
pub proof fn law_the_summary_counts_all_hits(p: SearchPanel, r: String)
    requires
        call_ensures(SearchPanel::summary, (&p,), r),
        !p.searching,
    ensures
        (text::dec(p.results@.len()) + " 个结果"@).is_prefix_of(r@),
        p.results@.len() <= 100 ==> r@ == text::dec(p.results@.len()) + " 个结果"@,
{
    reveal_strlit(" 个结果(显示前 ");
    reveal_strlit(" 个结果");
    if p.results@.len() > 100 {
        let head = text::dec(p.results@.len()) + " 个结果"@;
        assert(r@.take(head.len() as int) =~= head);
    }
}

/// The selection moves one row down within the first rows, and the preview turns to the line of the hit
/// that is then selected.
pub proof fn law_the_preview_follows_the_hit(p: &mut SearchPanel, step: Option<PreviewStep>)
    requires
        old(p).inv(),
        old(p).preview.seq < u64::MAX,
        0 < old(p).results@.len() <= 100,
        call_ensures(SearchPanel::move_selection, (p, 1i32), step),
    ensures
        old(p).selected + 1 < old(p).results@.len() ==> final(p).selected == old(p).selected + 1,
        old(p).selected + 1 == old(p).results@.len() ==> final(p).selected == 0,
        ({
            let h = final(p).results@[final(p).selected as int];
            &&& step is Some && !(step->0 is Cleared)
            &&& step matches Some(PreviewStep::Read { seq, path, line }) ==> path@ == h.path@ && line
                == h.line && seq == final(p).preview.seq
            &&& step matches Some(PreviewStep::Scroll(line)) ==> old(p).preview.doc is Some && old(
                p,
            ).preview.doc->0.path@ == h.path@ && line <= h.line
        }),
        final(p).results == old(p).results,
{
    select::law_a_step_is_undone_by_the_opposite_one(
        old(p).selected as int,
        1,
        old(p).results@.len() as int,
    );
}

} // verus!
