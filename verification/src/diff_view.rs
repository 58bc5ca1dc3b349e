//! Side by side view of one file's line diff, with hunks that can be taken back one by one.
use vstd::prelude::*;

use crate::text;

verus! {

/// How many unchanged rows a hunk shows around a change.
pub const CONTEXT: usize = 3;

/// What happened to a row between the old and the new version.
#[derive(Clone, Copy, Debug, PartialEq, Eq, Structural)]
pub enum DiffKind {
    Same,
    Added,
    Removed,
}

/// One row of the flat diff of a whole file.
pub struct DiffRow {
    pub kind: DiffKind,
    /// Line number in the old version, from 1.
    pub old_line: Option<u32>,
    /// Line number in the new version, from 1.
    pub new_line: Option<u32>,
    pub text: String,
}

/// How many lines a diff adds and removes.
pub struct DiffStat {
    pub added: usize,
    pub removed: usize,
}

/// The line diff of a file.
pub struct LineDiff {
    pub rows: Vec<DiffRow>,
    pub stat: DiffStat,
}

/// What a diff view asks of its owner.
pub enum DiffViewEvent {
    OpenFile(String),
    /// Replace `new_count` lines of the working file from line `new_start` (counted from 1) by
    /// `old_content`.
    RevertHunk { path: String, new_start: usize, new_count: usize, old_content: Vec<String> },
}

/// A diff overlay of one file.
pub struct DiffView {
    pub rel_path: String,
    pub abs_path: String,
    pub diff: LineDiff,
    /// First and last row of each hunk.
    pub hunks: Vec<(usize, usize)>,
}

/// A displayed row: the head of a hunk, or the rows that stand side by side.
pub enum SideRenderRow {
    Hunk(usize, String),
    Pair { left: Option<usize>, right: Option<usize> },
}

/// The model of a displayed row.
pub enum SideRow {
    Hunk(int, Seq<char>),
    Pair { left: Option<int>, right: Option<int> },
}

/// The index behind an optional machine index.
pub open spec fn opt_index(o: Option<usize>) -> Option<int> {
    match o {
        Some(i) => Some(i as int),
        None => None,
    }
}

impl View for SideRenderRow {
    type V = SideRow;

    open spec fn view(&self) -> SideRow {
        match *self {
            SideRenderRow::Hunk(hi, label) => SideRow::Hunk(hi as int, label@),
            SideRenderRow::Pair { left, right } => SideRow::Pair {
                left: opt_index(left),
                right: opt_index(right),
            },
        }
    }
}

/// The models of a sequence of displayed rows.
pub open spec fn side_views(v: Seq<SideRenderRow>) -> Seq<SideRow> {
    v.map_values(|r: SideRenderRow| r@)
}

/// Whether row `c` of the diff is a change.
pub open spec fn is_change(rows: Seq<DiffRow>, c: int) -> bool {
    0 <= c < rows.len() && rows[c].kind != DiffKind::Same
}

/// Whether row `i` stands within the context of change `c`.
pub open spec fn in_context(rows: Seq<DiffRow>, c: int, i: int) -> bool {
    is_change(rows, c) && c - CONTEXT <= i <= c + CONTEXT
}

/// Whether row `i` stands within the context of some change.
pub open spec fn shown(rows: Seq<DiffRow>, i: int) -> bool {
    exists|c: int| in_context(rows, c, i)
}

/// Whether window `w` holds row `i`.
pub open spec fn holds(w: (usize, usize), i: int) -> bool {
    w.0 <= i <= w.1
}

/// Whether some window holds row `i`.
pub open spec fn covered(windows: Seq<(usize, usize)>, i: int) -> bool {
    exists|k: int| 0 <= k < windows.len() && #[trigger] holds(windows[k], i)
}

/// Each window is a nonempty range of the `n` rows.
pub open spec fn windows_in(windows: Seq<(usize, usize)>, n: int) -> bool {
    forall|k: int| 0 <= k < windows.len() ==> (#[trigger] windows[k]).0 <= windows[k].1 < n
}

/// The windows stand in order, with at least one row between any two.
pub open spec fn windows_apart(windows: Seq<(usize, usize)>) -> bool {
    forall|j: int, k: int|
        0 <= j < k < windows.len() ==> (#[trigger] windows[j]).1 + 1 < (#[trigger] windows[k]).0
}

/// The windows are the runs of shown rows: in order, apart, and holding exactly the shown rows.
pub open spec fn are_hunks(rows: Seq<DiffRow>, windows: Seq<(usize, usize)>) -> bool {
    &&& windows_in(windows, rows.len() as int)
    &&& windows_apart(windows)
    &&& forall|i: int| 0 <= i < rows.len() ==> (#[trigger] covered(windows, i) <==> shown(rows, i))
}

/// The texts of the rows that the old version has.
pub open spec fn old_texts(rows: Seq<DiffRow>) -> Seq<Seq<char>>
    decreases rows.len(),
{
    if rows.len() == 0 {
        Seq::empty()
    } else {
        let rest = old_texts(rows.drop_last());
        if rows.last().old_line is Some {
            rest.push(rows.last().text@)
        } else {
            rest
        }
    }
}

/// The texts of the rows that the new version has.
pub open spec fn new_texts(rows: Seq<DiffRow>) -> Seq<Seq<char>>
    decreases rows.len(),
{
    if rows.len() == 0 {
        Seq::empty()
    } else {
        let rest = new_texts(rows.drop_last());
        if rows.last().new_line is Some {
            rest.push(rows.last().text@)
        } else {
            rest
        }
    }
}

/// The first old line number among the rows, or 0.
pub open spec fn first_old(rows: Seq<DiffRow>) -> u32
    decreases rows.len(),
{
    if rows.len() == 0 {
        0
    } else {
        match rows[0].old_line {
            Some(n) => n,
            None => first_old(rows.drop_first()),
        }
    }
}

/// The first new line number among the rows, or 0.
pub open spec fn first_new(rows: Seq<DiffRow>) -> u32
    decreases rows.len(),
{
    if rows.len() == 0 {
        0
    } else {
        match rows[0].new_line {
            Some(n) => n,
            None => first_new(rows.drop_first()),
        }
    }
}

/// The rows of a window.
pub open spec fn window_rows(rows: Seq<DiffRow>, w: (usize, usize)) -> Seq<DiffRow> {
    rows.subrange(w.0 as int, w.1 + 1)
}

/// A block of removed and added rows, paired one to one; what is left over on one side faces
/// nothing on the other.
pub open spec fn block(rem: Seq<int>, add: Seq<int>) -> Seq<SideRow> {
    Seq::new(
        if rem.len() >= add.len() {
            rem.len()
        } else {
            add.len()
        },
        |i: int|
            SideRow::Pair {
                left: if i < rem.len() {
                    Some(rem[i])
                } else {
                    None
                },
                right: if i < add.len() {
                    Some(add[i])
                } else {
                    None
                },
            },
    )
}

/// The rows from `from` up to `to` side by side, with the removed rows `rem` and the added rows
/// `add` still waiting to be paired.
pub open spec fn paired(
    rows: Seq<DiffRow>,
    from: int,
    to: int,
    rem: Seq<int>,
    add: Seq<int>,
) -> Seq<SideRow>
    decreases to - from,
{
    if from >= to {
        block(rem, add)
    } else {
        match rows[from].kind {
            DiffKind::Same => block(rem, add).push(
                SideRow::Pair { left: Some(from), right: Some(from) },
            ) + paired(rows, from + 1, to, Seq::empty(), Seq::empty()),
            DiffKind::Removed => paired(rows, from + 1, to, rem.push(from), add),
            DiffKind::Added => paired(rows, from + 1, to, rem, add.push(from)),
        }
    }
}

/// The rows from `from` up to `to` side by side.
pub open spec fn side_by_side(rows: Seq<DiffRow>, from: int, to: int) -> Seq<SideRow> {
    paired(rows, from, to, Seq::empty(), Seq::empty())
}

/// The head of a hunk in unified notation.
pub open spec fn hunk_label(window: Seq<DiffRow>) -> Seq<char> {
    "@@ -"@ + text::dec(first_old(window) as nat) + ","@ + text::dec(old_texts(window).len()) + " +"@ + text::dec(
        first_new(window) as nat,
    ) + ","@ + text::dec(new_texts(window).len()) + " @@"@
}

/// All hunks of the windows, each with its head.
pub open spec fn hunks_shown(rows: Seq<DiffRow>, windows: Seq<(usize, usize)>) -> Seq<SideRow>
    decreases windows.len(),
{
    if windows.len() == 0 {
        Seq::empty()
    } else {
        let w = windows.last();
        hunks_shown(rows, windows.drop_last()).push(
            SideRow::Hunk(windows.len() - 1, hunk_label(window_rows(rows, w))),
        ) + side_by_side(rows, w.0 as int, w.1 + 1)
    }
}

/// What the view shows: the hunks, or the whole file where nothing changed.
pub open spec fn side_rows(rows: Seq<DiffRow>, windows: Seq<(usize, usize)>) -> Seq<SideRow> {
    if windows.len() == 0 {
        side_by_side(rows, 0, rows.len() as int)
    } else {
        hunks_shown(rows, windows)
    }
}

/// Where each hunk starts and ends among the rows.
pub fn hunk_ranges(rows: &Vec<DiffRow>) -> (windows: Vec<(usize, usize)>)
    ensures
        are_hunks(rows@, windows@),
{
    let mut windows: Vec<(usize, usize)> = Vec::new();
    let n = rows.len();
    let mut ci: usize = 0;
    while ci < n
        invariant
            ci <= n,
            n == rows@.len(),
            windows_in(windows@, n as int),
            windows_apart(windows@),
            forall|k: int| #![trigger windows@[k]]
                0 <= k < windows@.len() ==> windows@[k].1 < ci + CONTEXT,
            forall|i: int|
                0 <= i < n ==> (#[trigger] covered(windows@, i) <==> exists|c: int|
                    c < ci && #[trigger] in_context(rows@, c, i)),
        decreases n - ci,
    {
        let ghost before = windows@;
        match rows[ci].kind {
            DiffKind::Same => {
                assert(!is_change(rows@, ci as int));
                assert forall|i: int| 0 <= i < n implies (#[trigger] covered(windows@, i)
                    <==> exists|c: int| c < ci + 1 && #[trigger] in_context(rows@, c, i)) by {
                    assert(!in_context(rows@, ci as int, i));
                }
            },
            _ => {
                let start: usize = if ci >= CONTEXT {
                    ci - CONTEXT
                } else {
                    0
                };
                let end: usize = if n - 1 - ci >= CONTEXT {
                    ci + CONTEXT
                } else {
                    n - 1
                };
                let count = windows.len();
                if count > 0 && start <= windows[count - 1].1 + 1 {
                    let w = windows[count - 1];
                    windows.set(count - 1, (w.0, if w.1 >= end { w.1 } else { end }));
                    proof {
                        let last = count - 1;
                        assert(w.1 <= end);
                        assert(windows@ =~= before.update(last as int, (w.0, end)));
                        assert forall|i: int| 0 <= i < n implies (#[trigger] covered(windows@, i)
                            <==> exists|c: int| c < ci + 1 && #[trigger] in_context(rows@, c, i)) by {
                            if covered(windows@, i) {
                                let k = choose|k: int|
                                    0 <= k < windows@.len() && #[trigger] holds(windows@[k], i);
                                if k < last || i <= w.1 {
                                    assert(holds(before[k], i));
                                    assert(covered(before, i));
                                } else {
                                    assert(in_context(rows@, ci as int, i));
                                }
                            }
                            if exists|c: int| c < ci + 1 && #[trigger] in_context(rows@, c, i) {
                                let c = choose|c: int|
                                    c < ci + 1 && #[trigger] in_context(rows@, c, i);
                                if c < ci {
                                    assert(covered(before, i));
                                    let k = choose|k: int|
                                        0 <= k < before.len() && #[trigger] holds(before[k], i);
                                    assert(holds(windows@[k], i));
                                } else if i >= w.0 {
                                    assert(holds(windows@[last as int], i));
                                } else {
                                    // A row before the last window is in the context of an
                                    // earlier change too.
                                    assert(holds(before[last as int], w.0 as int));
                                    assert(covered(before, w.0 as int));
                                    let e = choose|e: int|
                                        e < ci && #[trigger] in_context(rows@, e, w.0 as int);
                                    assert(in_context(rows@, e, i));
                                    assert(covered(before, i));
                                    let k = choose|k: int|
                                        0 <= k < before.len() && #[trigger] holds(before[k], i);
                                    assert(holds(windows@[k], i));
                                }
                            }
                        }
                    }
                } else {
                    windows.push((start, end));
                    proof {
                        assert forall|i: int| 0 <= i < n implies (#[trigger] covered(windows@, i)
                            <==> exists|c: int| c < ci + 1 && #[trigger] in_context(rows@, c, i)) by {
                            if covered(windows@, i) {
                                let k = choose|k: int|
                                    0 <= k < windows@.len() && #[trigger] holds(windows@[k], i);
                                if k < before.len() {
                                    assert(holds(before[k], i));
                                    assert(covered(before, i));
                                } else {
                                    assert(in_context(rows@, ci as int, i));
                                }
                            }
                            if exists|c: int| c < ci + 1 && #[trigger] in_context(rows@, c, i) {
                                let c = choose|c: int|
                                    c < ci + 1 && #[trigger] in_context(rows@, c, i);
                                if c < ci {
                                    assert(covered(before, i));
                                    let k = choose|k: int|
                                        0 <= k < before.len() && #[trigger] holds(before[k], i);
                                    assert(holds(windows@[k], i));
                                } else {
                                    assert(holds(windows@[before.len() as int], i));
                                }
                            }
                        }
                    }
                }
            },
        }
        ci += 1;
    }
    proof {
        assert forall|i: int| 0 <= i < rows@.len() implies (#[trigger] covered(windows@, i)
            <==> shown(rows@, i)) by {
            if shown(rows@, i) {
                let c = choose|c: int| in_context(rows@, c, i);
                assert(c < n && in_context(rows@, c, i));
            }
            if covered(windows@, i) {
                let c = choose|c: int| c < n && #[trigger] in_context(rows@, c, i);
                assert(in_context(rows@, c, i));
            }
        }
    }
    windows
}

/// The indices behind a list of machine indices.
pub open spec fn indices(v: Seq<usize>) -> Seq<int> {
    v.map_values(|i: usize| i as int)
}

/// Pairs the waiting removed and added rows off and empties both lists.
pub fn emit_block(out: &mut Vec<SideRenderRow>, rem: &mut Vec<usize>, add: &mut Vec<usize>)
    ensures
        side_views(final(out)@) == side_views(old(out)@) + block(
            indices(old(rem)@),
            indices(old(add)@),
        ),
        final(rem)@.len() == 0,
        final(add)@.len() == 0,
{
    let n: usize = if rem.len() >= add.len() {
        rem.len()
    } else {
        add.len()
    };
    let ghost all = block(indices(rem@), indices(add@));
    let mut i: usize = 0;
    assert(side_views(out@) =~= side_views(old(out)@) + all.take(0));
    while i < n
        invariant
            i <= n,
            n == all.len(),
            all == block(indices(rem@), indices(add@)),
            side_views(out@) == side_views(old(out)@) + all.take(i as int),
        decreases n - i,
    {
        let left: Option<usize> = if i < rem.len() {
            Some(rem[i])
        } else {
            None
        };
        let right: Option<usize> = if i < add.len() {
            Some(add[i])
        } else {
            None
        };
        let ghost prev = side_views(out@);
        out.push(SideRenderRow::Pair { left, right });
        assert(side_views(out@) =~= prev.push(all[i as int]));
        i += 1;
        assert(side_views(out@) =~= side_views(old(out)@) + all.take(i as int));
    }
    assert(all.take(n as int) =~= all);
    rem.clear();
    add.clear();
}

/// Appends the rows from `from` up to `to` side by side.
pub fn push_slice(out: &mut Vec<SideRenderRow>, rows: &Vec<DiffRow>, from: usize, to: usize)
    requires
        from <= to <= rows@.len(),
    ensures
        side_views(final(out)@) == side_views(old(out)@) + side_by_side(
            rows@,
            from as int,
            to as int,
        ),
{
    let mut rem: Vec<usize> = Vec::new();
    let mut add: Vec<usize> = Vec::new();
    let mut i: usize = from;
    let ghost goal = side_views(out@) + side_by_side(rows@, from as int, to as int);
    assert(indices(rem@) =~= Seq::<int>::empty());
    assert(indices(add@) =~= Seq::<int>::empty());
    while i < to
        invariant
            from <= i <= to <= rows@.len(),
            side_views(out@) + paired(rows@, i as int, to as int, indices(rem@), indices(add@))
                == goal,
        decreases to - i,
    {
        let ghost sofar = side_views(out@);
        let ghost r0 = indices(rem@);
        let ghost a0 = indices(add@);
        match rows[i].kind {
            DiffKind::Same => {
                emit_block(out, &mut rem, &mut add);
                let ghost mid = side_views(out@);
                out.push(SideRenderRow::Pair { left: Some(i), right: Some(i) });
                let ghost pair = SideRow::Pair { left: Some(i as int), right: Some(i as int) };
                assert(side_views(out@) =~= mid.push(pair));
                assert(indices(rem@) =~= Seq::<int>::empty());
                assert(indices(add@) =~= Seq::<int>::empty());
                let ghost tail = side_by_side(rows@, i + 1, to as int);
                assert(side_views(out@) + tail =~= sofar + (block(r0, a0).push(pair) + tail));
            },
            DiffKind::Removed => {
                rem.push(i);
                assert(indices(rem@) =~= r0.push(i as int));
            },
            DiffKind::Added => {
                add.push(i);
                assert(indices(add@) =~= a0.push(i as int));
            },
        }
        i += 1;
    }
    emit_block(out, &mut rem, &mut add);
}

/// Old line numbers of rows from `from` up to `to`: the first one (or 0) and how many there are.
fn old_extent(rows: &Vec<DiffRow>, from: usize, to: usize) -> (r: (u32, usize))
    requires
        from <= to <= rows@.len(),
    ensures
        r.0 == first_old(rows@.subrange(from as int, to as int)),
        r.1 == old_texts(rows@.subrange(from as int, to as int)).len(),
{
    let mut first: Option<u32> = None;
    let mut count: usize = 0;
    let mut i: usize = from;
    let ghost all = rows@.subrange(from as int, to as int);
    assert(all.skip(0) =~= all);
    assert(all.take(0) =~= Seq::<DiffRow>::empty());
    while i < to
        invariant
            from <= i <= to <= rows@.len(),
            all == rows@.subrange(from as int, to as int),
            count <= i - from,
            count == old_texts(all.take(i - from)).len(),
            first matches Some(n) ==> first_old(all) == n,
            first is None ==> first_old(all) == first_old(all.skip(i - from)),
        decreases to - i,
    {
        let ghost k = i - from;
        assert(all.take(k + 1).drop_last() =~= all.take(k));
        assert(all.take(k + 1).last() == rows@[i as int]);
        assert(all.skip(k)[0] == rows@[i as int]);
        assert(all.skip(k).drop_first() =~= all.skip(k + 1));
        if let Some(n) = rows[i].old_line {
            count += 1;
            if first.is_none() {
                first = Some(n);
            }
        }
        i += 1;
    }
    assert(all.take(to - from) =~= all);
    (
        match first {
            Some(n) => n,
            None => 0,
        },
        count,
    )
}

/// New line numbers of rows from `from` up to `to`: the first one (or 0) and how many there are.
fn new_extent(rows: &Vec<DiffRow>, from: usize, to: usize) -> (r: (u32, usize))
    requires
        from <= to <= rows@.len(),
    ensures
        r.0 == first_new(rows@.subrange(from as int, to as int)),
        r.1 == new_texts(rows@.subrange(from as int, to as int)).len(),
{
    let mut first: Option<u32> = None;
    let mut count: usize = 0;
    let mut i: usize = from;
    let ghost all = rows@.subrange(from as int, to as int);
    assert(all.skip(0) =~= all);
    assert(all.take(0) =~= Seq::<DiffRow>::empty());
    while i < to
        invariant
            from <= i <= to <= rows@.len(),
            all == rows@.subrange(from as int, to as int),
            count <= i - from,
            count == new_texts(all.take(i - from)).len(),
            first matches Some(n) ==> first_new(all) == n,
            first is None ==> first_new(all) == first_new(all.skip(i - from)),
        decreases to - i,
    {
        let ghost k = i - from;
        assert(all.take(k + 1).drop_last() =~= all.take(k));
        assert(all.take(k + 1).last() == rows@[i as int]);
        assert(all.skip(k)[0] == rows@[i as int]);
        assert(all.skip(k).drop_first() =~= all.skip(k + 1));
        if let Some(n) = rows[i].new_line {
            count += 1;
            if first.is_none() {
                first = Some(n);
            }
        }
        i += 1;
    }
    assert(all.take(to - from) =~= all);
    (
        match first {
            Some(n) => n,
            None => 0,
        },
        count,
    )
}

/// The rows that the view shows for the hunks in `windows`.
pub fn build_side_rows(rows: &Vec<DiffRow>, windows: &Vec<(usize, usize)>) -> (out: Vec<
    SideRenderRow,
>)
    requires
        windows_in(windows@, rows@.len() as int),
    ensures
        side_views(out@) == side_rows(rows@, windows@),
{
    let mut out: Vec<SideRenderRow> = Vec::new();
    assert(side_views(out@) =~= Seq::<SideRow>::empty());
    let n = rows.len();
    if windows.len() == 0 {
        push_slice(&mut out, rows, 0, n);
        assert(side_views(out@) =~= side_rows(rows@, windows@));
        return out;
    }
    let mut hi: usize = 0;
    assert(windows@.take(0) =~= Seq::<(usize, usize)>::empty());
    while hi < windows.len()
        invariant
            hi <= windows@.len(),
            n == rows@.len(),
            windows_in(windows@, rows@.len() as int),
            side_views(out@) == hunks_shown(rows@, windows@.take(hi as int)),
        decreases windows@.len() - hi,
    {
        let (start, end) = windows[hi];
        let (old_start, old_count) = old_extent(rows, start, end + 1);
        let (new_start, new_count) = new_extent(rows, start, end + 1);
        let mut label = text::cat4(
            "@@ -",
            text::dec_u64(old_start as u64).as_str(),
            ",",
            text::dec_usize(old_count).as_str(),
        );
        label.append(" +");
        label.append(text::dec_u64(new_start as u64).as_str());
        label.append(",");
        label.append(text::dec_usize(new_count).as_str());
        label.append(" @@");
        assert(label@ == hunk_label(window_rows(rows@, windows@[hi as int])));
        let ghost prev = side_views(out@);
        out.push(SideRenderRow::Hunk(hi, label));
        assert(side_views(out@) =~= prev.push(
            SideRow::Hunk(hi as int, hunk_label(window_rows(rows@, windows@[hi as int]))),
        ));
        push_slice(&mut out, rows, start, end + 1);
        assert(windows@.take(hi + 1).drop_last() =~= windows@.take(hi as int));
        assert(windows@.take(hi + 1).last() == windows@[hi as int]);
        hi += 1;
    }
    assert(windows@.take(windows@.len() as int) =~= windows@);
    out
}

/// The old texts of rows from `from` up to `to`.
fn old_content_of(rows: &Vec<DiffRow>, from: usize, to: usize) -> (r: Vec<String>)
    requires
        from <= to <= rows@.len(),
    ensures
        text::texts(r@) == old_texts(rows@.subrange(from as int, to as int)),
{
    let mut out: Vec<String> = Vec::new();
    let mut i: usize = from;
    let ghost all = rows@.subrange(from as int, to as int);
    assert(all.take(0) =~= Seq::<DiffRow>::empty());
    assert(text::texts(out@) =~= old_texts(all.take(0)));
    while i < to
        invariant
            from <= i <= to <= rows@.len(),
            all == rows@.subrange(from as int, to as int),
            text::texts(out@) == old_texts(all.take(i - from)),
        decreases to - i,
    {
        let ghost k = i - from;
        assert(all.take(k + 1).drop_last() =~= all.take(k));
        assert(all.take(k + 1).last() == rows@[i as int]);
        if rows[i].old_line.is_some() {
            let ghost prev = text::texts(out@);
            out.push(rows[i].text.clone());
            assert(text::texts(out@) =~= prev.push(rows@[i as int].text@));
        }
        i += 1;
    }
    assert(all.take(to - from) =~= all);
    out
}

/// One side of a displayed pair.
pub enum DiffCell {
    /// The other side's row has no counterpart here.
    Filler,
    /// Line number, whether the row is tinted as removed (left) or added (right), and its text.
    Line { lineno: String, tinted: bool, text: String },
}

/// Whether `c` shows row `row` on the left (`is_left`) or on the right.
pub open spec fn cell_shows(c: DiffCell, row: Option<DiffRow>, is_left: bool) -> bool {
    match row {
        None => c is Filler,
        Some(r) => {
            let n = if is_left {
                r.old_line
            } else {
                r.new_line
            };
            &&& c is Line
            &&& c->lineno@ == (match n {
                Some(k) => text::dec(k as nat),
                None => Seq::<char>::empty(),
            })
            &&& c->tinted == (r.kind == if is_left {
                DiffKind::Removed
            } else {
                DiffKind::Added
            })
            &&& c->text@ == r.text@
        },
    }
}

/// A row as one side of a pair shows it.
pub fn cell(row: Option<&DiffRow>, is_left: bool) -> (c: DiffCell)
    ensures
        row is None ==> c is Filler,
        row matches Some(r) ==> cell_shows(c, Some(*r), is_left),
{
    match row {
        None => DiffCell::Filler,
        Some(r) => {
            let n = if is_left {
                r.old_line
            } else {
                r.new_line
            };
            let lineno = match n {
                Some(k) => text::dec_u64(k as u64),
                None => String::new(),
            };
            assert(n is None ==> lineno@ =~= Seq::<char>::empty());
            let tinted = r.kind == if is_left {
                DiffKind::Removed
            } else {
                DiffKind::Added
            };
            DiffCell::Line { lineno, tinted, text: r.text.clone() }
        },
    }
}

/// One line of the drawn view.
pub enum DiffLine {
    Hunk { index: usize, label: String },
    Pair { left: DiffCell, right: DiffCell },
}

/// What a diff view draws.
pub struct DiffFrame {
    pub title: String,
    pub added: String,
    pub removed: String,
    pub lines: Vec<DiffLine>,
}

/// The diff row behind an optional index.
pub open spec fn row_at(rows: Seq<DiffRow>, i: Option<int>) -> Option<DiffRow> {
    match i {
        Some(k) => Some(rows[k]),
        None => None,
    }
}

/// Whether `line` draws the row `side`.
pub open spec fn line_draws(rows: Seq<DiffRow>, line: DiffLine, side: SideRow) -> bool {
    match side {
        SideRow::Hunk(hi, label) => line matches DiffLine::Hunk { index, label: l } && index == hi
            && l@ == label,
        SideRow::Pair { left, right } => line matches DiffLine::Pair { left: a, right: b }
            && cell_shows(a, row_at(rows, left), true) && cell_shows(
            b,
            row_at(rows, right),
            false,
        ),
    }
}

/// Every index of a displayed pair is one of the rows.
pub open spec fn in_rows(side: SideRow, n: int) -> bool {
    side matches SideRow::Pair { left, right } ==> (left matches Some(i) ==> 0 <= i < n) && (
    right matches Some(j) ==> 0 <= j < n)
}

proof fn lemma_paired_in_rows(
    rows: Seq<DiffRow>,
    from: int,
    to: int,
    rem: Seq<int>,
    add: Seq<int>,
    i: int,
)
    requires
        0 <= from,
        to <= rows.len(),
        forall|k: int| 0 <= k < rem.len() ==> 0 <= #[trigger] rem[k] < rows.len(),
        forall|k: int| 0 <= k < add.len() ==> 0 <= #[trigger] add[k] < rows.len(),
        0 <= i < paired(rows, from, to, rem, add).len(),
    ensures
        in_rows(paired(rows, from, to, rem, add)[i], rows.len() as int),
    decreases to - from,
{
    if from < to {
        match rows[from].kind {
            DiffKind::Same => {
                let head = block(rem, add).push(
                    SideRow::Pair { left: Some(from), right: Some(from) },
                );
                if i >= head.len() {
                    lemma_paired_in_rows(
                        rows,
                        from + 1,
                        to,
                        Seq::empty(),
                        Seq::empty(),
                        i - head.len(),
                    );
                }
            },
            DiffKind::Removed => {
                lemma_paired_in_rows(rows, from + 1, to, rem.push(from), add, i);
            },
            DiffKind::Added => {
                lemma_paired_in_rows(rows, from + 1, to, rem, add.push(from), i);
            },
        }
    }
}

proof fn lemma_side_rows_in_rows(rows: Seq<DiffRow>, windows: Seq<(usize, usize)>, i: int)
    requires
        windows_in(windows, rows.len() as int),
        0 <= i < side_rows(rows, windows).len(),
    ensures
        in_rows(side_rows(rows, windows)[i], rows.len() as int),
    decreases windows.len(),
{
    if windows.len() == 0 {
        lemma_paired_in_rows(rows, 0, rows.len() as int, Seq::empty(), Seq::empty(), i);
    } else {
        let w = windows.last();
        let init = windows.drop_last();
        let head = hunks_shown(rows, init);
        assert(windows[windows.len() - 1] == w);
        assert forall|k: int| 0 <= k < init.len() implies (#[trigger] init[k]).0 <= init[k].1
            < rows.len() by {
            assert(init[k] == windows[k]);
        }
        if i < head.len() {
            assert(init.len() > 0);
            lemma_side_rows_in_rows(rows, init, i);
        } else if i > head.len() {
            lemma_paired_in_rows(
                rows,
                w.0 as int,
                w.1 + 1,
                Seq::empty(),
                Seq::empty(),
                i - head.len() - 1,
            );
        }
    }
}

impl DiffView {
    /// The hunks are those of the rows.
    pub open spec fn inv(self) -> bool {
        are_hunks(self.diff.rows@, self.hunks@)
    }

    /// A view of `diff`.
    pub fn new(rel_path: String, abs_path: String, diff: LineDiff) -> (view: Self)
        ensures
            view.inv(),
            view.rel_path == rel_path,
            view.abs_path == abs_path,
            view.diff == diff,
    {
        let hunks = hunk_ranges(&diff.rows);
        Self { rel_path, abs_path, diff, hunks }
    }

    /// What has to be written to take hunk `hi` back. There is nothing to write for an index that
    /// is no hunk and for a hunk without a line of the new version.
    pub fn revert_hunk(&self, hi: usize) -> (r: Option<DiffViewEvent>)
        requires
            self.inv(),
        ensures
            r is Some <==> hi < self.hunks@.len() && first_new(
                window_rows(self.diff.rows@, self.hunks@[hi as int]),
            ) != 0,
            r matches Some(e) ==> {
                let window = window_rows(self.diff.rows@, self.hunks@[hi as int]);
                &&& e is RevertHunk
                &&& e->path == self.abs_path
                &&& e->new_start == first_new(window)
                &&& e->new_count == new_texts(window).len()
                &&& text::texts(e->old_content@) == old_texts(window)
            },
    {
        if hi >= self.hunks.len() {
            return None;
        }
        let rows = self.diff.rows.len();
        let (start, end) = self.hunks[hi];
        assert(end < rows);
        let (first, new_count) = new_extent(&self.diff.rows, start, end + 1);
        if first == 0 {
            return None;
        }
        let old_content = old_content_of(&self.diff.rows, start, end + 1);
        Some(
            DiffViewEvent::RevertHunk {
                path: self.abs_path.clone(),
                new_start: first as usize,
                new_count,
                old_content,
            },
        )
    }

    /// The event of the button that opens the file.
    pub fn open_file(&self) -> (r: DiffViewEvent)
        ensures
            r == DiffViewEvent::OpenFile(self.abs_path),
    {
        DiffViewEvent::OpenFile(self.abs_path.clone())
    }

    /// What the view draws: the path, the two counts, and each displayed row.
    pub fn render(&self) -> (frame: DiffFrame)
        requires
            self.inv(),
        ensures
            frame.title@ == self.rel_path@,
            frame.added@ == "+"@ + text::dec(self.diff.stat.added as nat),
            frame.removed@ == "-"@ + text::dec(self.diff.stat.removed as nat),
            frame.lines@.len() == side_rows(self.diff.rows@, self.hunks@).len(),
            forall|i: int|
                0 <= i < frame.lines@.len() ==> line_draws(
                    self.diff.rows@,
                    #[trigger] frame.lines@[i],
                    side_rows(self.diff.rows@, self.hunks@)[i],
                ),
    {
        let rows = &self.diff.rows;
        let side = build_side_rows(rows, &self.hunks);
        let ghost model = side_rows(rows@, self.hunks@);
        let mut lines: Vec<DiffLine> = Vec::new();
        let mut i: usize = 0;
        while i < side.len()
            invariant
                i <= side@.len(),
                rows == &self.diff.rows,
                windows_in(self.hunks@, rows@.len() as int),
                model == side_rows(rows@, self.hunks@),
                side_views(side@) == model,
                lines@.len() == i,
                forall|j: int| 0 <= j < i ==> line_draws(rows@, #[trigger] lines@[j], model[j]),
            decreases side@.len() - i,
        {
            proof {
                lemma_side_rows_in_rows(rows@, self.hunks@, i as int);
                assert(model[i as int] == side@[i as int]@);
            }
            match &side[i] {
                SideRenderRow::Hunk(hi, label) => {
                    lines.push(DiffLine::Hunk { index: *hi, label: label.clone() });
                },
                SideRenderRow::Pair { left, right } => {
                    let a = match left {
                        Some(k) => cell(Some(&rows[*k]), true),
                        None => cell(None, true),
                    };
                    let b = match right {
                        Some(k) => cell(Some(&rows[*k]), false),
                        None => cell(None, false),
                    };
                    lines.push(DiffLine::Pair { left: a, right: b });
                },
            }
            i += 1;
        }
        DiffFrame {
            title: self.rel_path.clone(),
            added: text::cat2("+", text::dec_usize(self.diff.stat.added).as_str()),
            removed: text::cat2("-", text::dec_usize(self.diff.stat.removed).as_str()),
            lines,
        }
    }
}

/// `lines` with the `count` lines from line `from` (counted from 1) replaced by `with`; what lies
/// beyond the end is not replaced.
pub open spec fn spliced(
    lines: Seq<Seq<char>>,
    from: int,
    count: int,
    with: Seq<Seq<char>>,
) -> Seq<Seq<char>> {
    let n = lines.len() as int;
    let first = if from < 1 {
        0
    } else {
        from - 1
    };
    let start = if first < n {
        first
    } else {
        n
    };
    let end = if start + count < n {
        start + count
    } else {
        n
    };
    lines.take(start) + with + lines.skip(end)
}

/// Whether a text ends in a line feed.
pub open spec fn ends_in_newline(s: Seq<char>) -> bool {
    s.len() > 0 && s.last() == '\n'
}

/// The length of the first line of `s`, its line feed included.
pub open spec fn line_len(s: Seq<char>) -> int
    decreases s.len(),
{
    if s.len() == 0 {
        0
    } else if s[0] == '\n' {
        1
    } else {
        1 + line_len(s.drop_first())
    }
}

/// The length of the first `k` lines of `s`, their line feeds included, or of all where there are
/// fewer.
pub open spec fn lines_len(s: Seq<char>, k: int) -> int
    decreases k,
{
    if k <= 0 || s.len() == 0 {
        0
    } else {
        line_len(s) + lines_len(s.skip(line_len(s)), k - 1)
    }
}

/// What stands for the lines of `content` between the positions `start` and `end`: the lines `with`,
/// each with a line feed. The last one has none where it comes to stand at the end of a content that
/// does not end in one, and the first one follows a line feed in any case.
pub open spec fn put_in(
    content: Seq<char>,
    start: int,
    end: int,
    with: Seq<Seq<char>>,
) -> Seq<char> {
    let nl = seq!['\n'];
    if with.len() == 0 {
        Seq::empty()
    } else {
        (if start > 0 && content[start - 1] != '\n' {
            nl
        } else {
            Seq::empty()
        }) + text::joined(with, nl) + (if end < content.len() || ends_in_newline(content) {
            nl
        } else {
            Seq::empty()
        })
    }
}

/// Where line `from` of `content` begins, counted from 1.
pub open spec fn hunk_start(content: Seq<char>, from: int) -> int {
    lines_len(content, from - 1)
}

/// Where the `count` lines from line `from` of `content` end.
pub open spec fn hunk_end(content: Seq<char>, from: int, count: int) -> int {
    hunk_start(content, from) + lines_len(content.skip(hunk_start(content, from)), count)
}

/// `content` with the `count` lines from line `from` (counted from 1) replaced by `with`. Everything
/// outside these lines stays as it is, whatever its lines end in.
pub open spec fn reverted(
    content: Seq<char>,
    from: int,
    count: int,
    with: Seq<Seq<char>>,
) -> Seq<char> {
    let start = hunk_start(content, from);
    let end = hunk_end(content, from, count);
    content.take(start) + put_in(content, start, end, with) + content.skip(end)
}

fn skip_lines(cs: &Vec<char>, from: usize, k: usize) -> (r: usize)
    requires
        from <= cs@.len(),
    ensures
        from <= r <= cs@.len(),
        r == from + lines_len(cs@.skip(from as int), k as int),
{
    let ghost s = cs@;
    let mut at: usize = from;
    let mut left: usize = k;
    assert(lines_len(s.skip(from as int), k as int) == at - from + lines_len(
        s.skip(at as int),
        left as int,
    ));
    while left > 0 && at < cs.len()
        invariant
            s == cs@,
            from <= at <= s.len(),
            lines_len(s.skip(from as int), k as int) == at - from + lines_len(
                s.skip(at as int),
                left as int,
            ),
        decreases left,
    {
        let ghost begin = at as int;
        let mut ended = false;
        while !ended && at < cs.len()
            invariant
                s == cs@,
                0 <= begin <= at <= s.len(),
                begin < at || (!ended && begin < s.len()),
                line_len(s.skip(begin)) == at - begin + (if ended {
                    0
                } else {
                    line_len(s.skip(at as int))
                }),
            decreases s.len() - at,
        {
            assert(s.skip(at as int)[0] == s[at as int]);
            assert(s.skip(at as int).drop_first() =~= s.skip(at + 1));
            ended = cs[at] == '\n';
            at += 1;
        }
        assert(at == s.len() ==> s.skip(at as int).len() == 0);
        assert(s.skip(begin).skip(at - begin) =~= s.skip(at as int));
        left -= 1;
    }
    at
}

/// The content of the working file once a hunk has been taken back.
pub fn reverted_content(
    content: &str,
    new_start: usize,
    new_count: usize,
    old_content: &Vec<String>,
) -> (out: String)
    ensures
        out@ == reverted(
            content@,
            new_start as int,
            new_count as int,
            text::texts(old_content@),
        ),
{
    let cs = text::chars_of(content);
    let ghost all = content@;
    let ghost with = text::texts(old_content@);
    let first: usize = if new_start == 0 {
        0
    } else {
        new_start - 1
    };
    let start = skip_lines(&cs, 0, first);
    assert(all.skip(0) =~= all);
    assert(start == hunk_start(all, new_start as int));
    let end = skip_lines(&cs, start, new_count);
    let n = cs.len();
    let head = text::string_of(&cs, 0, start);
    let tail = text::string_of(&cs, end, n);
    assert(head@ =~= all.take(start as int));
    assert(tail@ =~= all.skip(end as int));
    proof {
        reveal_strlit("\n");
        reveal_strlit("");
        assert("\n"@ =~= seq!['\n']);
        assert(""@ =~= Seq::<char>::empty());
    }
    if old_content.len() == 0 {
        let out = text::cat2(head.as_str(), tail.as_str());
        assert(out@ =~= reverted(all, new_start as int, new_count as int, with));
        return out;
    }
    let before = if start > 0 && cs[start - 1] != '\n' {
        "\n"
    } else {
        ""
    };
    let behind = if end < n || (n > 0 && cs[n - 1] == '\n') {
        "\n"
    } else {
        ""
    };
    let body = text::join(old_content, "\n");
    let middle = text::cat3(before, body.as_str(), behind);
    assert(middle@ == put_in(all, start as int, end as int, with));
    text::cat3(head.as_str(), middle.as_str(), tail.as_str())
}

/// The left sides of displayed rows, from top to bottom.
pub open spec fn lefts(rows: Seq<SideRow>) -> Seq<int>
    decreases rows.len(),
{
    if rows.len() == 0 {
        Seq::empty()
    } else {
        match rows[0] {
            SideRow::Pair { left: Some(i), .. } => seq![i] + lefts(rows.drop_first()),
            _ => lefts(rows.drop_first()),
        }
    }
}

/// The right sides of displayed rows, from top to bottom.
pub open spec fn rights(rows: Seq<SideRow>) -> Seq<int>
    decreases rows.len(),
{
    if rows.len() == 0 {
        Seq::empty()
    } else {
        match rows[0] {
            SideRow::Pair { right: Some(i), .. } => seq![i] + rights(rows.drop_first()),
            _ => rights(rows.drop_first()),
        }
    }
}

/// The rows from `from` up to `to` that are not of kind `but`, in order.
pub open spec fn rows_but(rows: Seq<DiffRow>, from: int, to: int, but: DiffKind) -> Seq<int>
    decreases to - from,
{
    if from >= to {
        Seq::empty()
    } else if rows[from].kind == but {
        rows_but(rows, from + 1, to, but)
    } else {
        seq![from] + rows_but(rows, from + 1, to, but)
    }
}

proof fn lemma_sides_add(a: Seq<SideRow>, b: Seq<SideRow>)
    ensures
        lefts(a + b) == lefts(a) + lefts(b),
        rights(a + b) == rights(a) + rights(b),
    decreases a.len(),
{
    if a.len() == 0 {
        assert(a + b =~= b);
        assert(lefts(a) + lefts(b) =~= lefts(b));
        assert(rights(a) + rights(b) =~= rights(b));
    } else {
        assert((a + b).drop_first() =~= a.drop_first() + b);
        assert((a + b)[0] == a[0]);
        lemma_sides_add(a.drop_first(), b);
        assert(lefts(a + b) =~= lefts(a) + lefts(b));
        assert(rights(a + b) =~= rights(a) + rights(b));
    }
}

proof fn lemma_sides_block(rem: Seq<int>, add: Seq<int>)
    ensures
        lefts(block(rem, add)) == rem,
        rights(block(rem, add)) == add,
    decreases rem.len() + add.len(),
{
    let b = block(rem, add);
    if rem.len() == 0 && add.len() == 0 {
        assert(rem =~= Seq::<int>::empty());
        assert(add =~= Seq::<int>::empty());
    } else {
        let r = if rem.len() > 0 {
            rem.drop_first()
        } else {
            rem
        };
        let a = if add.len() > 0 {
            add.drop_first()
        } else {
            add
        };
        assert(b.drop_first() =~= block(r, a));
        lemma_sides_block(r, a);
        if rem.len() > 0 {
            assert(seq![rem[0]] + r =~= rem);
        } else {
            assert(r =~= rem);
        }
        if add.len() > 0 {
            assert(seq![add[0]] + a =~= add);
        } else {
            assert(a =~= add);
        }
    }
}

proof fn lemma_sides_paired(rows: Seq<DiffRow>, from: int, to: int, rem: Seq<int>, add: Seq<int>)
    ensures
        lefts(paired(rows, from, to, rem, add)) == rem + rows_but(rows, from, to, DiffKind::Added),
        rights(paired(rows, from, to, rem, add)) == add + rows_but(
            rows,
            from,
            to,
            DiffKind::Removed,
        ),
    decreases to - from,
{
    lemma_sides_block(rem, add);
    if from >= to {
        assert(rem + Seq::<int>::empty() =~= rem);
        assert(add + Seq::<int>::empty() =~= add);
    } else {
        let left = rows_but(rows, from + 1, to, DiffKind::Added);
        let right = rows_but(rows, from + 1, to, DiffKind::Removed);
        match rows[from].kind {
            DiffKind::Same => {
                let pair = SideRow::Pair { left: Some(from), right: Some(from) };
                let tail = paired(rows, from + 1, to, Seq::empty(), Seq::empty());
                lemma_sides_paired(rows, from + 1, to, Seq::empty(), Seq::empty());
                lemma_sides_add(block(rem, add), seq![pair]);
                lemma_sides_add(block(rem, add).push(pair), tail);
                assert(block(rem, add) + seq![pair] =~= block(rem, add).push(pair));
                assert(seq![pair].drop_first() =~= Seq::<SideRow>::empty());
                assert(seq![pair][0] == pair);
                assert(lefts(seq![pair].drop_first()) =~= Seq::<int>::empty());
                assert(rights(seq![pair].drop_first()) =~= Seq::<int>::empty());
                assert(lefts(seq![pair]) =~= seq![from]);
                assert(rights(seq![pair]) =~= seq![from]);
                assert(lefts(paired(rows, from, to, rem, add)) =~= rem + (seq![from] + left));
                assert(rights(paired(rows, from, to, rem, add)) =~= add + (seq![from] + right));
            },
            DiffKind::Removed => {
                lemma_sides_paired(rows, from + 1, to, rem.push(from), add);
                assert(rem.push(from) + left =~= rem + (seq![from] + left));
            },
            DiffKind::Added => {
                lemma_sides_paired(rows, from + 1, to, rem, add.push(from));
                assert(add.push(from) + right =~= add + (seq![from] + right));
            },
        }
    }
}

/// Read from top to bottom, the left column is the old version and the right column the new one:
/// every row but the added ones on the left, every row but the removed ones on the right, each
/// once and in order.
pub proof fn law_columns_are_the_versions(rows: Seq<DiffRow>, from: int, to: int)
    ensures
        lefts(side_by_side(rows, from, to)) == rows_but(rows, from, to, DiffKind::Added),
        rights(side_by_side(rows, from, to)) == rows_but(rows, from, to, DiffKind::Removed),
{
    lemma_sides_paired(rows, from, to, Seq::empty(), Seq::empty());
    assert(lefts(side_by_side(rows, from, to)) =~= rows_but(rows, from, to, DiffKind::Added));
    assert(rights(side_by_side(rows, from, to)) =~= rows_but(rows, from, to, DiffKind::Removed));
}

/// The numbers of the hunks whose headers are among displayed rows, from top to bottom.
pub open spec fn hunk_numbers(rows: Seq<SideRow>) -> Seq<int>
    decreases rows.len(),
{
    if rows.len() == 0 {
        Seq::empty()
    } else {
        match rows.last() {
            SideRow::Hunk(hi, label) => hunk_numbers(rows.drop_last()).push(hi),
            _ => hunk_numbers(rows.drop_last()),
        }
    }
}

proof fn lemma_no_headers(rows: Seq<SideRow>, more: Seq<SideRow>)
    requires
        forall|i: int| 0 <= i < more.len() ==> #[trigger] more[i] is Pair,
    ensures
        hunk_numbers(rows + more) == hunk_numbers(rows),
    decreases more.len(),
{
    if more.len() == 0 {
        assert(rows + more =~= rows);
    } else {
        assert((rows + more).drop_last() =~= rows + more.drop_last());
        assert((rows + more).last() == more[more.len() - 1]);
        assert forall|i: int| 0 <= i < more.drop_last().len() implies #[trigger] more.drop_last()[i]
            is Pair by {
            assert(more[i] is Pair);
        }
        lemma_no_headers(rows, more.drop_last());
    }
}

proof fn lemma_paired_are_pairs(
    rows: Seq<DiffRow>,
    from: int,
    to: int,
    rem: Seq<int>,
    add: Seq<int>,
    i: int,
)
    requires
        0 <= i < paired(rows, from, to, rem, add).len(),
    ensures
        paired(rows, from, to, rem, add)[i] is Pair,
    decreases to - from,
{
    if from < to {
        match rows[from].kind {
            DiffKind::Same => {
                let n = block(rem, add).len() + 1;
                if i >= n {
                    lemma_paired_are_pairs(rows, from + 1, to, Seq::empty(), Seq::empty(), i - n);
                }
            },
            DiffKind::Removed => {
                lemma_paired_are_pairs(rows, from + 1, to, rem.push(from), add, i);
            },
            DiffKind::Added => {
                lemma_paired_are_pairs(rows, from + 1, to, rem, add.push(from), i);
            },
        }
    }
}

proof fn lemma_headers(rows: Seq<DiffRow>, windows: Seq<(usize, usize)>)
    ensures
        hunk_numbers(hunks_shown(rows, windows)) == Seq::new(windows.len(), |k: int| k),
    decreases windows.len(),
{
    if windows.len() == 0 {
        assert(Seq::new(windows.len(), |k: int| k) =~= Seq::<int>::empty());
    } else {
        let w = windows.last();
        let rest = hunks_shown(rows, windows.drop_last());
        let header = SideRow::Hunk(windows.len() - 1, hunk_label(window_rows(rows, w)));
        let part = side_by_side(rows, w.0 as int, w.1 + 1);
        lemma_headers(rows, windows.drop_last());
        assert forall|i: int| 0 <= i < part.len() implies #[trigger] part[i] is Pair by {
            lemma_paired_are_pairs(rows, w.0 as int, w.1 + 1, Seq::empty(), Seq::empty(), i);
        }
        lemma_no_headers(rest.push(header), part);
        assert(rest.push(header).drop_last() =~= rest);
        assert(Seq::new((windows.len() - 1) as nat, |k: int| k).push(windows.len() - 1)
            =~= Seq::new(windows.len(), |k: int| k));
    }
}

/// The hunks shown so far begin what is shown of all.
proof fn lemma_hunks_begin(rows: Seq<DiffRow>, windows: Seq<(usize, usize)>, k: int)
    requires
        0 <= k <= windows.len(),
    ensures
        hunks_shown(rows, windows.take(k)).is_prefix_of(hunks_shown(rows, windows)),
    decreases windows.len(),
{
    if k == windows.len() {
        assert(windows.take(k) =~= windows);
    } else {
        let init = windows.drop_last();
        lemma_hunks_begin(rows, init, k);
        assert(init.take(k) =~= windows.take(k));
        assert(hunks_shown(rows, init).is_prefix_of(hunks_shown(rows, windows)));
    }
}

proof fn lemma_rows_but(rows: Seq<DiffRow>, from: int, to: int, but: DiffKind)
    ensures
        rows_but(rows, from, to, but).no_duplicates(),
        forall|i: int| #[trigger]
            rows_but(rows, from, to, but).contains(i) <==> from <= i < to && rows[i].kind != but,
    decreases to - from,
{
    let all = rows_but(rows, from, to, but);
    if from < to {
        let rest = rows_but(rows, from + 1, to, but);
        lemma_rows_but(rows, from + 1, to, but);
        if rows[from].kind != but {
            assert forall|i: int| #[trigger] all.contains(i) <==> from <= i < to && rows[i].kind
                != but by {
                if i == from {
                    assert(all[0] == from);
                } else if rest.contains(i) {
                    let k = rest.index_of(i);
                    assert(all[k + 1] == i);
                } else if all.contains(i) {
                    let k = all.index_of(i);
                    assert(all[k] == i);
                    assert(rest[k - 1] == i);
                }
            }
            assert forall|a: int, b: int| 0 <= a < all.len() && 0 <= b < all.len() && a != b
                implies all[a] != all[b] by {
                if a == 0 {
                    assert(rest[b - 1] == all[b]);
                    assert(rest.contains(all[b]));
                } else if b == 0 {
                    assert(rest[a - 1] == all[a]);
                    assert(rest.contains(all[a]));
                } else {
                    assert(rest[a - 1] == all[a] && rest[b - 1] == all[b]);
                }
            }
        }
    }
}

proof fn lemma_apart_add(a: Seq<int>, b: Seq<int>)
    requires
        a.no_duplicates(),
        b.no_duplicates(),
        forall|i: int| #[trigger] a.contains(i) ==> !b.contains(i),
    ensures
        (a + b).no_duplicates(),
        forall|i: int| #[trigger] (a + b).contains(i) <==> a.contains(i) || b.contains(i),
{
    let all = a + b;
    assert forall|i: int| #[trigger] all.contains(i) <==> a.contains(i) || b.contains(i) by {
        if a.contains(i) {
            assert(all[a.index_of(i)] == i);
        }
        if b.contains(i) {
            assert(all[a.len() + b.index_of(i)] == i);
        }
        if all.contains(i) {
            let k = all.index_of(i);
            if k < a.len() {
                assert(a[k] == i);
            } else {
                assert(b[k - a.len()] == i);
            }
        }
    }
    assert forall|x: int, y: int| 0 <= x < all.len() && 0 <= y < all.len() && x != y implies all[x]
        != all[y] by {
        if x < a.len() {
            assert(a.contains(a[x]));
        }
        if y < a.len() {
            assert(a.contains(a[y]));
        }
        if x >= a.len() {
            assert(b.contains(b[x - a.len()]));
        }
        if y >= a.len() {
            assert(b.contains(b[y - a.len()]));
        }
    }
}

proof fn lemma_shown_once(rows: Seq<DiffRow>, windows: Seq<(usize, usize)>)
    requires
        windows_in(windows, rows.len() as int),
        windows_apart(windows),
    ensures
        lefts(hunks_shown(rows, windows)).no_duplicates(),
        rights(hunks_shown(rows, windows)).no_duplicates(),
        forall|i: int| #[trigger]
            lefts(hunks_shown(rows, windows)).contains(i) <==> covered(windows, i) && rows[i].kind
                != DiffKind::Added,
        forall|i: int| #[trigger]
            rights(hunks_shown(rows, windows)).contains(i) <==> covered(windows, i) && rows[i].kind
                != DiffKind::Removed,
    decreases windows.len(),
{
    let l = lefts(hunks_shown(rows, windows));
    let r = rights(hunks_shown(rows, windows));
    if windows.len() == 0 {
        assert forall|i: int| !#[trigger] covered(windows, i) by {}
        assert(l =~= Seq::<int>::empty());
        assert(r =~= Seq::<int>::empty());
    } else {
        let init = windows.drop_last();
        let w = windows.last();
        let rest = hunks_shown(rows, init);
        let header = SideRow::Hunk(windows.len() - 1, hunk_label(window_rows(rows, w)));
        let part = side_by_side(rows, w.0 as int, w.1 + 1);
        assert(w == windows[windows.len() - 1]);
        assert(windows_in(init, rows.len() as int)) by {
            assert forall|k: int| 0 <= k < init.len() implies (#[trigger] init[k]).0 <= init[k].1
                < rows.len() by {
                assert(init[k] == windows[k]);
            }
        }
        assert(windows_apart(init)) by {
            assert forall|j: int, k: int| 0 <= j < k < init.len() implies (#[trigger] init[j]).1 + 1
                < (#[trigger] init[k]).0 by {
                assert(init[j] == windows[j] && init[k] == windows[k]);
            }
        }
        lemma_shown_once(rows, init);
        law_columns_are_the_versions(rows, w.0 as int, w.1 + 1);
        lemma_rows_but(rows, w.0 as int, w.1 + 1, DiffKind::Added);
        lemma_rows_but(rows, w.0 as int, w.1 + 1, DiffKind::Removed);
        assert(rest.push(header) =~= rest + seq![header]);
        lemma_sides_add(rest, seq![header]);
        lemma_sides_add(rest.push(header), part);
        assert(seq![header][0] == header);
        assert(lefts(seq![header].drop_first()) =~= Seq::<int>::empty());
        assert(rights(seq![header].drop_first()) =~= Seq::<int>::empty());
        assert(lefts(seq![header]) =~= Seq::<int>::empty());
        assert(rights(seq![header]) =~= Seq::<int>::empty());
        assert(lefts(rest.push(header)) =~= lefts(rest));
        assert(rights(rest.push(header)) =~= rights(rest));
        assert forall|i: int| #[trigger] covered(windows, i) <==> covered(init, i) || holds(w, i) by {
            if covered(init, i) {
                let k = choose|k: int| 0 <= k < init.len() && #[trigger] holds(init[k], i);
                assert(init[k] == windows[k]);
                assert(holds(windows[k], i));
            }
            if holds(w, i) {
                assert(holds(windows[windows.len() - 1], i));
            }
            if covered(windows, i) {
                let k = choose|k: int| 0 <= k < windows.len() && #[trigger] holds(windows[k], i);
                if k < init.len() {
                    assert(holds(init[k], i));
                }
            }
        }
        assert forall|i: int| #[trigger] covered(init, i) implies !holds(w, i) by {
            let k = choose|k: int| 0 <= k < init.len() && #[trigger] holds(init[k], i);
            assert(init[k] == windows[k]);
            assert(windows[k].1 + 1 < windows[windows.len() - 1].0);
        }
        lemma_apart_add(lefts(rest), lefts(part));
        lemma_apart_add(rights(rest), rights(part));
        assert(l == lefts(rest) + lefts(part));
        assert(r == rights(rest) + rights(part));
    }
}

/// Over the hunks of a diff every changed row is shown exactly once: a removed row on the left and
/// an added row on the right, and nowhere else. The headers of the hunks are numbered from 0, each is
/// followed by its window side by side, and a diff without a change is shown whole and has no
/// header. Only a diff without rows shows nothing.
pub proof fn law_every_change_is_shown_once(rows: Seq<DiffRow>, windows: Seq<(usize, usize)>)
    requires
        are_hunks(rows, windows),
    ensures
        ({
            let all = side_rows(rows, windows);
            &&& lefts(all).no_duplicates()
            &&& rights(all).no_duplicates()
            &&& forall|i: int|
                0 <= i < rows.len() && (#[trigger] rows[i]).kind == DiffKind::Removed ==> lefts(
                    all,
                ).contains(i) && !rights(all).contains(i)
            &&& forall|i: int|
                0 <= i < rows.len() && (#[trigger] rows[i]).kind == DiffKind::Added ==> rights(
                    all,
                ).contains(i) && !lefts(all).contains(i)
            &&& hunk_numbers(all) == Seq::new(windows.len(), |k: int| k)
            &&& forall|k: int|
                0 <= k < windows.len() ==> (hunks_shown(rows, #[trigger] windows.take(k)).push(
                    SideRow::Hunk(k, hunk_label(window_rows(rows, windows[k]))),
                ) + side_by_side(rows, windows[k].0 as int, windows[k].1 + 1)).is_prefix_of(all)
            &&& windows.len() == 0 ==> all == side_by_side(rows, 0, rows.len() as int)
            &&& all.len() == 0 <==> rows.len() == 0
        }),
{
    let all = side_rows(rows, windows);
    let n = rows.len() as int;
    assert forall|i: int| 0 <= i < rows.len() && (#[trigger] rows[i]).kind != DiffKind::Same
        implies covered(windows, i) by {
        assert(in_context(rows, i, i));
        assert(shown(rows, i));
    }
    if windows.len() == 0 {
        assert forall|i: int| !#[trigger] covered(windows, i) by {}
        law_columns_are_the_versions(rows, 0, n);
        lemma_rows_but(rows, 0, n, DiffKind::Added);
        lemma_rows_but(rows, 0, n, DiffKind::Removed);
        assert forall|i: int| 0 <= i < all.len() implies #[trigger] all[i] is Pair by {
            lemma_paired_are_pairs(rows, 0, n, Seq::empty(), Seq::empty(), i);
        }
        lemma_no_headers(Seq::empty(), all);
        assert(Seq::<SideRow>::empty() + all =~= all);
        assert(hunk_numbers(Seq::<SideRow>::empty()) =~= Seq::new(windows.len(), |k: int| k));
        if n > 0 {
            assert(!covered(windows, 0));
            assert(rows[0].kind == DiffKind::Same);
            assert(rows_but(rows, 0, n, DiffKind::Added).contains(0));
            assert(all.len() == 0 ==> lefts(all) =~= Seq::<int>::empty());
        } else {
            assert(all =~= block(Seq::empty(), Seq::empty()));
        }
    } else {
        lemma_shown_once(rows, windows);
        lemma_headers(rows, windows);
        assert forall|k: int| 0 <= k < windows.len() implies (hunks_shown(
            rows,
            #[trigger] windows.take(k),
        ).push(SideRow::Hunk(k, hunk_label(window_rows(rows, windows[k])))) + side_by_side(
            rows,
            windows[k].0 as int,
            windows[k].1 + 1,
        )).is_prefix_of(all) by {
            lemma_hunks_begin(rows, windows, k + 1);
            assert(windows.take(k + 1).drop_last() =~= windows.take(k));
            assert(windows.take(k + 1).last() == windows[k]);
        }
        assert(windows[0].1 < n);
    }
}

/// Row `i` has an old (a new) number exactly when it was not added (removed), and that number
/// counts the old (new) lines up to it.
pub open spec fn row_numbered(rows: Seq<DiffRow>, i: int) -> bool {
    &&& rows[i].old_line is Some <==> rows[i].kind != DiffKind::Added
    &&& rows[i].new_line is Some <==> rows[i].kind != DiffKind::Removed
    &&& rows[i].old_line matches Some(n) ==> n == old_texts(rows.take(i)).len() + 1
    &&& rows[i].new_line matches Some(n) ==> n == new_texts(rows.take(i)).len() + 1
}

/// The rows are numbered as a diff numbers them: the old lines and the new lines each count up
/// from 1.
pub open spec fn well_numbered(rows: Seq<DiffRow>) -> bool {
    forall|i: int| 0 <= i < rows.len() ==> #[trigger] row_numbered(rows, i)
}

proof fn lemma_texts_add(a: Seq<DiffRow>, b: Seq<DiffRow>)
    ensures
        old_texts(a + b) == old_texts(a) + old_texts(b),
        new_texts(a + b) == new_texts(a) + new_texts(b),
    decreases b.len(),
{
    if b.len() == 0 {
        assert(a + b =~= a);
        assert(old_texts(a) + old_texts(b) =~= old_texts(a));
        assert(new_texts(a) + new_texts(b) =~= new_texts(a));
    } else {
        assert((a + b).drop_last() =~= a + b.drop_last());
        assert((a + b).last() == b.last());
        lemma_texts_add(a, b.drop_last());
        assert(old_texts(a + b) =~= old_texts(a) + old_texts(b));
        assert(new_texts(a + b) =~= new_texts(a) + new_texts(b));
    }
}

proof fn lemma_first_new(rows: Seq<DiffRow>, from: int, to: int)
    requires
        well_numbered(rows),
        0 <= from <= to <= rows.len(),
    ensures
        first_new(rows.subrange(from, to)) != 0 ==> first_new(rows.subrange(from, to))
            == new_texts(rows.take(from)).len() + 1,
        first_new(rows.subrange(from, to)) == 0 ==> new_texts(rows.subrange(from, to)).len() == 0,
    decreases to - from,
{
    let part = rows.subrange(from, to);
    if from < to {
        assert(row_numbered(rows, from));
        assert(part[0] == rows[from]);
        assert(part.drop_first() =~= rows.subrange(from + 1, to));
        if rows[from].new_line is None {
            lemma_first_new(rows, from + 1, to);
            assert(rows.take(from + 1) =~= rows.take(from) + seq![rows[from]]);
            lemma_texts_add(rows.take(from), seq![rows[from]]);
            assert(seq![rows[from]].drop_last() =~= Seq::<DiffRow>::empty());
            assert(seq![rows[from]].last() == rows[from]);
            assert(new_texts(seq![rows[from]].drop_last()) =~= Seq::<Seq<char>>::empty());
            assert(new_texts(seq![rows[from]]) =~= Seq::<Seq<char>>::empty());
            assert(part =~= seq![rows[from]] + rows.subrange(from + 1, to));
            lemma_texts_add(seq![rows[from]], rows.subrange(from + 1, to));
        }
    }
}

/// Taking a hunk back leaves the lines outside it as they are and puts the old lines of the hunk
/// in place of its new ones.
pub proof fn law_revert_replaces_only_the_hunk(rows: Seq<DiffRow>, w: (usize, usize))
    requires
        well_numbered(rows),
        w.0 <= w.1 < rows.len(),
        first_new(window_rows(rows, w)) != 0,
    ensures
        spliced(
            new_texts(rows),
            first_new(window_rows(rows, w)) as int,
            new_texts(window_rows(rows, w)).len() as int,
            old_texts(window_rows(rows, w)),
        ) == new_texts(rows.take(w.0 as int)) + old_texts(window_rows(rows, w)) + new_texts(
            rows.skip(w.1 + 1),
        ),
{
    let a = rows.take(w.0 as int);
    let b = window_rows(rows, w);
    let c = rows.skip(w.1 + 1);
    lemma_first_new(rows, w.0 as int, w.1 + 1);
    lemma_texts_add(a, b);
    lemma_texts_add(a + b, c);
    assert(rows =~= a + b + c);
    let all = new_texts(rows);
    let start = new_texts(a).len() as int;
    let end = start + new_texts(b).len();
    assert(all.take(start) =~= new_texts(a));
    assert(all.skip(end) =~= new_texts(c));
}

proof fn lemma_unchanged_texts(rows: Seq<DiffRow>, from: int, to: int)
    requires
        well_numbered(rows),
        0 <= from <= to <= rows.len(),
        forall|i: int| from <= i < to ==> (#[trigger] rows[i]).kind == DiffKind::Same,
    ensures
        old_texts(rows.subrange(from, to)) == new_texts(rows.subrange(from, to)),
    decreases to - from,
{
    let part = rows.subrange(from, to);
    if from < to {
        lemma_unchanged_texts(rows, from, to - 1);
        assert(part.drop_last() =~= rows.subrange(from, to - 1));
        assert(part.last() == rows[to - 1]);
        assert(row_numbered(rows, to - 1));
    }
}

/// Taking the only hunk of a diff back gives the old version.
pub proof fn law_reverting_the_only_hunk_restores_the_old_version(
    rows: Seq<DiffRow>,
    windows: Seq<(usize, usize)>,
)
    requires
        well_numbered(rows),
        are_hunks(rows, windows),
        windows.len() == 1,
        first_new(window_rows(rows, windows[0])) != 0,
    ensures
        spliced(
            new_texts(rows),
            first_new(window_rows(rows, windows[0])) as int,
            new_texts(window_rows(rows, windows[0])).len() as int,
            old_texts(window_rows(rows, windows[0])),
        ) == old_texts(rows),
{
    let w = windows[0];
    law_revert_replaces_only_the_hunk(rows, w);
    let a = rows.take(w.0 as int);
    let b = window_rows(rows, w);
    let c = rows.skip(w.1 + 1);
    assert forall|i: int| 0 <= i < rows.len() && !holds(w, i) implies (#[trigger] rows[i]).kind
        == DiffKind::Same by {
        if rows[i].kind != DiffKind::Same {
            assert(in_context(rows, i, i));
            assert(shown(rows, i));
            assert(covered(windows, i));
        }
    }
    assert(a =~= rows.subrange(0, w.0 as int));
    assert(c =~= rows.subrange(w.1 + 1, rows.len() as int));
    lemma_unchanged_texts(rows, 0, w.0 as int);
    lemma_unchanged_texts(rows, w.1 + 1, rows.len() as int);
    lemma_texts_add(a, b);
    lemma_texts_add(a + b, c);
    assert(rows =~= a + b + c);
}

/// The lines of a text: what stands between the line feeds, without an empty rest at the end. A
/// carriage return is a part of its line.
pub open spec fn plain_lines(s: Seq<char>) -> Seq<Seq<char>> {
    let pieces = text::split_on(s, '\n');
    if pieces.last().len() == 0 {
        pieces.drop_last()
    } else {
        pieces
    }
}

/// Whether a text is empty or ends in a line feed, so that what follows it begins a line.
spec fn ends_a_line(s: Seq<char>) -> bool {
    s.len() == 0 || s.last() == '\n'
}

/// The last piece is empty exactly for an empty text and for one that ends in a line feed.
proof fn lemma_last_piece(s: Seq<char>)
    ensures
        text::split_on(s, '\n').len() >= 1,
        text::split_on(s, '\n').last().len() == 0 <==> ends_a_line(s),
    decreases s.len(),
{
    text::lemma_split_nonempty(s, '\n');
    if s.len() > 0 {
        text::lemma_split_nonempty(s.drop_last(), '\n');
    }
}

proof fn lemma_split_add(a: Seq<char>, b: Seq<char>)
    requires
        ends_a_line(a),
    ensures
        text::split_on(a + b, '\n') == text::split_on(a, '\n').drop_last() + text::split_on(
            b,
            '\n',
        ),
    decreases b.len(),
{
    let pa = text::split_on(a, '\n');
    lemma_last_piece(a);
    if b.len() == 0 {
        assert(a + b =~= a);
        assert(pa.last() =~= Seq::<char>::empty());
        assert(pa =~= pa.drop_last() + seq![Seq::<char>::empty()]);
    } else {
        let c = b.drop_last();
        assert((a + b).drop_last() =~= a + c);
        assert((a + b).last() == b.last());
        lemma_split_add(a, c);
        lemma_last_piece(c);
        let pc = text::split_on(c, '\n');
        let rest = pa.drop_last() + pc;
        assert(rest.last() == pc.last());
        if b.last() == '\n' {
            assert(rest.push(Seq::<char>::empty()) =~= pa.drop_last() + pc.push(
                Seq::<char>::empty(),
            ));
        } else {
            assert(rest.drop_last().push(rest.last().push(b.last())) =~= pa.drop_last()
                + pc.drop_last().push(pc.last().push(b.last())));
        }
    }
}

proof fn lemma_plain_add(a: Seq<char>, b: Seq<char>)
    requires
        ends_a_line(a),
    ensures
        plain_lines(a + b) == plain_lines(a) + plain_lines(b),
{
    lemma_split_add(a, b);
    lemma_last_piece(a);
    lemma_last_piece(b);
    let pa = text::split_on(a, '\n').drop_last();
    let pb = text::split_on(b, '\n');
    assert((pa + pb).last() == pb.last());
    assert((pa + pb).drop_last() =~= pa + pb.drop_last());
}

proof fn lemma_no_feed(s: Seq<char>)
    requires
        !s.contains('\n'),
    ensures
        text::split_on(s, '\n') == seq![s],
    decreases s.len(),
{
    if s.len() > 0 {
        let t = s.drop_last();
        assert(!t.contains('\n')) by {
            if t.contains('\n') {
                let i = t.index_of('\n');
                assert(s[i] == '\n');
            }
        }
        lemma_no_feed(t);
        assert(s.last() != '\n') by {
            assert(s[s.len() - 1] == s.last());
        }
        assert(seq![t].drop_last().push(seq![t].last().push(s.last())) =~= seq![s]) by {
            assert(t.push(s.last()) =~= s);
        }
    } else {
        assert(s =~= Seq::<char>::empty());
    }
}

/// Ending a line that has not ended changes no line.
proof fn lemma_plain_ended(s: Seq<char>)
    requires
        !ends_a_line(s),
    ensures
        plain_lines(s.push('\n')) == plain_lines(s),
        plain_lines(s.push('\n')) == text::split_on(s, '\n'),
{
    lemma_last_piece(s);
    assert(s.push('\n').drop_last() =~= s);
    let p = text::split_on(s, '\n');
    assert(p.push(Seq::<char>::empty()).drop_last() =~= p);
}

proof fn lemma_line_len(s: Seq<char>)
    requires
        s.len() > 0,
    ensures
        0 < line_len(s) <= s.len(),
        forall|i: int| 0 <= i < line_len(s) - 1 ==> #[trigger] s[i] != '\n',
        line_len(s) < s.len() ==> s[line_len(s) - 1] == '\n',
    decreases s.len(),
{
    assert(line_len(Seq::<char>::empty()) == 0);
    if s.len() == 1 {
        assert(s.drop_first() =~= Seq::<char>::empty());
    } else if s[0] != '\n' {
        let t = s.drop_first();
        lemma_line_len(t);
        assert forall|i: int| 0 <= i < line_len(s) - 1 implies #[trigger] s[i] != '\n' by {
            if i > 0 {
                assert(s[i] == t[i - 1]);
            }
        }
        if line_len(s) < s.len() {
            assert(s[line_len(s) - 1] == t[line_len(t) - 1]);
        }
    }
}

/// The first line of a text, and the lines behind it.
proof fn lemma_first_line(s: Seq<char>)
    requires
        s.len() > 0,
    ensures
        plain_lines(s.take(line_len(s))).len() == 1,
        plain_lines(s) == plain_lines(s.take(line_len(s))) + plain_lines(s.skip(line_len(s))),
{
    lemma_line_len(s);
    let j = line_len(s);
    let head = s.take(j);
    let bare = s.take(j - 1);
    assert(!bare.contains('\n')) by {
        if bare.contains('\n') {
            let i = bare.index_of('\n');
            assert(s[i] == '\n');
        }
    }
    assert(s =~= head + s.skip(j));
    if s[j - 1] == '\n' {
        assert(head =~= bare.push('\n'));
        assert(head.drop_last() =~= bare);
        lemma_no_feed(bare);
        assert(text::split_on(head, '\n') =~= seq![bare, Seq::<char>::empty()]);
        assert(plain_lines(head) =~= seq![bare]);
        lemma_plain_add(head, s.skip(j));
    } else {
        assert(head =~= s);
        assert(s.skip(j) =~= Seq::<char>::empty());
        assert(!s.contains('\n')) by {
            if s.contains('\n') {
                let i = s.index_of('\n');
                assert(s[i] == '\n');
            }
        }
        lemma_no_feed(s);
        assert(text::split_on(s.skip(j), '\n') =~= seq![Seq::<char>::empty()]);
        assert(plain_lines(s.skip(j)) =~= Seq::<Seq<char>>::empty());
        assert(plain_lines(s) =~= seq![s]);
    }
}

spec fn at_most(k: int, n: int) -> int {
    if k < 0 {
        0
    } else if k < n {
        k
    } else {
        n
    }
}

/// The first `k` lines of a text, and the lines behind them.
proof fn lemma_lines_len(s: Seq<char>, k: int)
    ensures
        0 <= lines_len(s, k) <= s.len(),
        lines_len(s, k) < s.len() ==> ends_a_line(s.take(lines_len(s, k))),
        plain_lines(s.take(lines_len(s, k))) == plain_lines(s).take(
            at_most(k, plain_lines(s).len() as int),
        ),
        plain_lines(s.skip(lines_len(s, k))) == plain_lines(s).skip(
            at_most(k, plain_lines(s).len() as int),
        ),
    decreases k,
{
    let all = plain_lines(s);
    assert(text::split_on(Seq::<char>::empty(), '\n') =~= seq![Seq::<char>::empty()]);
    assert(plain_lines(Seq::<char>::empty()) =~= Seq::<Seq<char>>::empty());
    if k <= 0 || s.len() == 0 {
        assert(s.take(0) =~= Seq::<char>::empty());
        assert(s.skip(0) =~= s);
        assert(s.len() == 0 ==> s =~= Seq::<char>::empty());
        assert(all.take(0) =~= Seq::<Seq<char>>::empty());
        assert(all.skip(0) =~= all);
    } else {
        lemma_line_len(s);
        lemma_first_line(s);
        let j = line_len(s);
        let t = s.skip(j);
        let st = lines_len(t, k - 1);
        lemma_lines_len(t, k - 1);
        let m = at_most(k - 1, plain_lines(t).len() as int);
        assert(at_most(k, all.len() as int) == m + 1);
        assert(s.skip(j + st) =~= t.skip(st));
        assert(all.skip(m + 1) =~= plain_lines(t).skip(m));
        assert(s.take(j + st) =~= s.take(j) + t.take(st));
        assert(all.take(m + 1) =~= plain_lines(s.take(j)) + plain_lines(t).take(m));
        if j < s.len() {
            assert(ends_a_line(s.take(j)));
            lemma_plain_add(s.take(j), t.take(st));
            if j + st < s.len() && st > 0 {
                assert(s.take(j + st).last() == t.take(st).last());
            }
            if st == 0 {
                assert(s.take(j + st) =~= s.take(j));
            }
        } else {
            assert(t =~= Seq::<char>::empty());
            assert(t.take(st) =~= Seq::<char>::empty());
            assert(s.take(j + st) =~= s.take(j));
            assert(plain_lines(s.take(j)) + plain_lines(t).take(m) =~= plain_lines(s.take(j)));
        }
    }
}

proof fn lemma_split_of_joined(lines: Seq<Seq<char>>)
    requires
        lines.len() > 0,
        forall|i: int| 0 <= i < lines.len() ==> !(#[trigger] lines[i]).contains('\n'),
    ensures
        text::split_on(text::joined(lines, seq!['\n']), '\n') == lines,
    decreases lines.len(),
{
    lemma_no_feed(lines.last());
    if lines.len() == 1 {
        assert(seq![lines.last()] =~= lines);
    } else {
        let init = lines.drop_last();
        let x = text::joined(init, seq!['\n']);
        assert forall|i: int| 0 <= i < init.len() implies !(#[trigger] init[i]).contains('\n') by {
            assert(init[i] == lines[i]);
        }
        lemma_split_of_joined(init);
        assert(x + seq!['\n'] + lines.last() =~= x.push('\n') + lines.last());
        lemma_split_add(x.push('\n'), lines.last());
        assert(x.push('\n').drop_last() =~= x);
        assert(init.push(Seq::<char>::empty()).drop_last() =~= init);
        assert(init + seq![lines.last()] =~= lines);
    }
}

/// Lines written back give the text that they were read from.
proof fn lemma_joined_back(s: Seq<char>)
    requires
        s.len() > 0,
    ensures
        plain_lines(s).len() > 0,
        s == text::joined(plain_lines(s), seq!['\n']) + (if ends_in_newline(s) {
            seq!['\n']
        } else {
            Seq::empty()
        }),
{
    let pieces = text::split_on(s, '\n');
    text::lemma_split_joined(s, '\n');
    lemma_last_piece(s);
    if ends_in_newline(s) {
        if pieces.len() == 1 {
            assert(text::joined(pieces, seq!['\n']) == pieces[0]);
        }
        assert(pieces.last() =~= Seq::<char>::empty());
        assert(text::joined(pieces, seq!['\n']) =~= text::joined(pieces.drop_last(), seq!['\n'])
            + seq!['\n']);
    } else {
        assert(s =~= text::joined(pieces, seq!['\n']) + Seq::<char>::empty());
    }
}

proof fn lemma_hunk_range(content: Seq<char>, from: int, count: int)
    ensures
        0 <= hunk_start(content, from) <= hunk_end(content, from, count) <= content.len(),
        ({
            let start = hunk_start(content, from);
            let end = hunk_end(content, from, count);
            let lines = plain_lines(content);
            let first = at_most(from - 1, lines.len() as int);
            let rest = lines.skip(first);
            let n = at_most(count, rest.len() as int);
            let part = content.subrange(start, end);
            &&& start < content.len() ==> ends_a_line(content.take(start))
            &&& start < end < content.len() ==> content[end - 1] == '\n'
            &&& plain_lines(content.take(start)) == lines.take(first)
            &&& plain_lines(part) == lines.subrange(first, first + n)
            &&& plain_lines(content.skip(end)) == lines.skip(first + n)
        }),
{
    let start = hunk_start(content, from);
    let tail = content.skip(start);
    let len = lines_len(tail, count);
    let lines = plain_lines(content);
    let first = at_most(from - 1, lines.len() as int);
    lemma_lines_len(content, from - 1);
    lemma_lines_len(tail, count);
    let rest = lines.skip(first);
    let n = at_most(count, rest.len() as int);
    assert(tail.take(len) =~= content.subrange(start, start + len));
    assert(tail.skip(len) =~= content.skip(start + len));
    assert(rest.take(n) =~= lines.subrange(first, first + n));
    assert(rest.skip(n) =~= lines.skip(first + n));
    if 0 < len < tail.len() {
        assert(tail.take(len).last() == content[start + len - 1]);
    }
}

/// Everything outside the lines that are taken back stays as it is, with what its lines end in.
pub proof fn law_revert_keeps_the_rest(
    content: Seq<char>,
    from: int,
    count: int,
    with: Seq<Seq<char>>,
)
    ensures
        content.take(hunk_start(content, from)).is_prefix_of(reverted(content, from, count, with)),
        content.skip(hunk_end(content, from, count)).is_suffix_of(
            reverted(content, from, count, with),
        ),
{
    lemma_hunk_range(content, from, count);
}

/// The lines of the content once a hunk has been taken back are the lines that it had, with those of
/// the hunk replaced. An empty line that comes to stand at the end of a content that does not end in
/// a line feed is no line of it.
pub proof fn law_revert_replaces_the_lines(
    content: Seq<char>,
    from: int,
    count: int,
    with: Seq<Seq<char>>,
)
    requires
        count >= 0,
        forall|i: int| 0 <= i < with.len() ==> !(#[trigger] with[i]).contains('\n'),
        with.len() > 0 && with.last().len() == 0 ==> hunk_end(content, from, count) < content.len()
            || ends_in_newline(content),
    ensures
        plain_lines(reverted(content, from, count, with)) == spliced(
            plain_lines(content),
            from,
            count,
            with,
        ),
{
    lemma_hunk_range(content, from, count);
    let start = hunk_start(content, from);
    let end = hunk_end(content, from, count);
    let lines = plain_lines(content);
    let first = at_most(from - 1, lines.len() as int);
    let n = at_most(count, lines.skip(first).len() as int);
    let head = content.take(start);
    let tail = content.skip(end);
    let nl = seq!['\n'];
    let out = reverted(content, from, count, with);
    assert(spliced(lines, from, count, with) =~= plain_lines(head) + with + plain_lines(tail));
    assert(plain_lines(Seq::<char>::empty()) =~= Seq::<Seq<char>>::empty()) by {
        assert(text::split_on(Seq::<char>::empty(), '\n') =~= seq![Seq::<char>::empty()]);
    }
    if with.len() == 0 {
        assert(out =~= head + tail);
        assert(plain_lines(head) + with + plain_lines(tail) =~= plain_lines(head) + plain_lines(
            tail,
        ));
        if ends_a_line(head) {
            lemma_plain_add(head, tail);
        } else {
            assert(tail =~= Seq::<char>::empty());
            assert(head + tail =~= head);
            assert(plain_lines(head) + plain_lines(tail) =~= plain_lines(head));
        }
    } else {
        let body = text::joined(with, nl);
        let opened = if start > 0 && content[start - 1] != '\n' {
            head.push('\n')
        } else {
            head
        };
        lemma_split_of_joined(with);
        lemma_last_piece(body);
        assert(start > 0 ==> head.last() == content[start - 1]);
        assert(plain_lines(opened) == plain_lines(head)) by {
            if !ends_a_line(head) {
                lemma_plain_ended(head);
            }
        }
        if end < content.len() || ends_in_newline(content) {
            let ended = body.push('\n');
            assert(ended.drop_last() =~= body);
            assert(text::split_on(ended, '\n') =~= with.push(Seq::<char>::empty()));
            assert(plain_lines(ended) =~= with);
            assert(out =~= opened + ended + tail);
            lemma_plain_add(opened, ended);
            assert((opened + ended).last() == '\n');
            lemma_plain_add(opened + ended, tail);
        } else {
            assert(tail =~= Seq::<char>::empty());
            assert(plain_lines(body) =~= with);
            assert(out =~= opened + body);
            lemma_plain_add(opened, body);
            assert(plain_lines(head) + with + plain_lines(tail) =~= plain_lines(head) + with);
        }
    }
}

/// Taking lines back to what they are changes nothing, whatever the lines end in.
pub proof fn law_lines_written_back(content: Seq<char>, from: int, count: int)
    ensures
        reverted(
            content,
            from,
            count,
            plain_lines(
                content.subrange(hunk_start(content, from), hunk_end(content, from, count)),
            ),
        ) == content,
{
    lemma_hunk_range(content, from, count);
    let start = hunk_start(content, from);
    let end = hunk_end(content, from, count);
    let part = content.subrange(start, end);
    let with = plain_lines(part);
    assert(plain_lines(Seq::<char>::empty()) =~= Seq::<Seq<char>>::empty()) by {
        assert(text::split_on(Seq::<char>::empty(), '\n') =~= seq![Seq::<char>::empty()]);
    }
    assert(content =~= content.take(start) + part + content.skip(end));
    if start == end {
        assert(part =~= Seq::<char>::empty());
        assert(put_in(content, start, end, with) =~= part);
    } else {
        lemma_joined_back(part);
        assert(part.last() == content[end - 1]);
        if start > 0 {
            assert(content.take(start).last() == content[start - 1]);
        }
        assert(put_in(content, start, end, with) =~= part);
    }
}

proof fn lemma_first_old_push(rows: Seq<DiffRow>, r: DiffRow)
    ensures
        (exists|i: int| 0 <= i < rows.len() && (#[trigger] rows[i]).old_line is Some) ==> first_old(
            rows.push(r),
        ) == first_old(rows),
        (forall|i: int| 0 <= i < rows.len() ==> (#[trigger] rows[i]).old_line is None) ==> first_old(
            rows.push(r),
        ) == (match r.old_line {
            Some(n) => n,
            None => 0,
        }),
    decreases rows.len(),
{
    let all = rows.push(r);
    if rows.len() == 0 {
        assert(all[0] == r);
        assert(first_old(all.drop_first()) == 0);
    } else {
        assert(all[0] == rows[0]);
        assert(all.drop_first() =~= rows.drop_first().push(r));
        lemma_first_old_push(rows.drop_first(), r);
        if rows[0].old_line is None {
            assert forall|i: int| 0 <= i < rows.drop_first().len() implies #[trigger] rows.drop_first()[i]
                == rows[i + 1] by {}
            if exists|i: int| 0 <= i < rows.len() && (#[trigger] rows[i]).old_line is Some {
                let i = choose|i: int| 0 <= i < rows.len() && (#[trigger] rows[i]).old_line is Some;
                assert(rows.drop_first()[i - 1].old_line is Some);
            }
        }
    }
}

proof fn lemma_first_new_push(rows: Seq<DiffRow>, r: DiffRow)
    ensures
        (exists|i: int| 0 <= i < rows.len() && (#[trigger] rows[i]).new_line is Some) ==> first_new(
            rows.push(r),
        ) == first_new(rows),
        (forall|i: int| 0 <= i < rows.len() ==> (#[trigger] rows[i]).new_line is None) ==> first_new(
            rows.push(r),
        ) == (match r.new_line {
            Some(n) => n,
            None => 0,
        }),
    decreases rows.len(),
{
    let all = rows.push(r);
    if rows.len() == 0 {
        assert(all[0] == r);
        assert(first_new(all.drop_first()) == 0);
    } else {
        assert(all[0] == rows[0]);
        assert(all.drop_first() =~= rows.drop_first().push(r));
        lemma_first_new_push(rows.drop_first(), r);
        if rows[0].new_line is None {
            assert forall|i: int| 0 <= i < rows.drop_first().len() implies #[trigger] rows.drop_first()[i]
                == rows[i + 1] by {}
            if exists|i: int| 0 <= i < rows.len() && (#[trigger] rows[i]).new_line is Some {
                let i = choose|i: int| 0 <= i < rows.len() && (#[trigger] rows[i]).new_line is Some;
                assert(rows.drop_first()[i - 1].new_line is Some);
            }
        }
    }
}

/// The rows of the old version among rows, and those of the new version: their texts are what the
/// version has there, and the first of them has the first number of the version.
pub proof fn law_versions_are_the_numbered_rows(rows: Seq<DiffRow>)
    ensures
        ({
            let olds = rows.filter(|r: DiffRow| r.old_line is Some);
            let news = rows.filter(|r: DiffRow| r.new_line is Some);
            &&& old_texts(rows) == olds.map_values(|r: DiffRow| r.text@)
            &&& new_texts(rows) == news.map_values(|r: DiffRow| r.text@)
            &&& first_old(rows) == (if olds.len() > 0 {
                olds[0].old_line->0
            } else {
                0
            })
            &&& first_new(rows) == (if news.len() > 0 {
                news[0].new_line->0
            } else {
                0
            })
        }),
    decreases rows.len(),
{
    reveal(Seq::filter);
    let is_old = |r: DiffRow| r.old_line is Some;
    let is_new = |r: DiffRow| r.new_line is Some;
    let olds = rows.filter(is_old);
    let news = rows.filter(is_new);
    if rows.len() > 0 {
        let init = rows.drop_last();
        law_versions_are_the_numbered_rows(init);
        assert(rows =~= init.push(rows.last()));
        lemma_first_old_push(init, rows.last());
        lemma_first_new_push(init, rows.last());
        let before_old = init.filter(is_old);
        let before_new = init.filter(is_new);
        if before_old.len() == 0 {
            assert forall|i: int| 0 <= i < init.len() implies (#[trigger] init[i]).old_line is None by {
                if is_old(init[i]) {
                    lemma_kept_by_filter(init, is_old, i);
                }
            }
        } else {
            lemma_filtered_is_there(init, is_old);
        }
        if before_new.len() == 0 {
            assert forall|i: int| 0 <= i < init.len() implies (#[trigger] init[i]).new_line is None by {
                if is_new(init[i]) {
                    lemma_kept_by_filter(init, is_new, i);
                }
            }
        } else {
            lemma_filtered_is_there(init, is_new);
        }
    }
    assert(old_texts(rows) =~= olds.map_values(|r: DiffRow| r.text@));
    assert(new_texts(rows) =~= news.map_values(|r: DiffRow| r.text@));
}

proof fn lemma_kept_by_filter(rows: Seq<DiffRow>, pred: spec_fn(DiffRow) -> bool, i: int)
    requires
        0 <= i < rows.len(),
        pred(rows[i]),
    ensures
        rows.filter(pred).len() > 0,
    decreases rows.len(),
{
    reveal(Seq::filter);
    if i < rows.len() - 1 {
        lemma_kept_by_filter(rows.drop_last(), pred, i);
    }
}

proof fn lemma_filtered_is_there(rows: Seq<DiffRow>, pred: spec_fn(DiffRow) -> bool)
    requires
        rows.filter(pred).len() > 0,
    ensures
        exists|i: int| 0 <= i < rows.len() && pred(#[trigger] rows[i]),
    decreases rows.len(),
{
    reveal(Seq::filter);
    if pred(rows.last()) {
        assert(pred(rows[rows.len() - 1]));
    } else {
        lemma_filtered_is_there(rows.drop_last(), pred);
        let i = choose|i: int| 0 <= i < rows.drop_last().len() && pred(#[trigger] rows.drop_last()[i]);
        assert(pred(rows[i]));
    }
}

/// The head of each hunk tells, in unified notation, where its rows stand in the two versions: after
/// the minus the number of the first old line and how many old lines there are, after the plus the
/// same of the new lines. A version without a line there has the number 0.
pub proof fn law_heads_tell_where_hunks_stand(
    rows: Seq<DiffRow>,
    windows: Seq<(usize, usize)>,
    k: int,
)
    requires
        windows_in(windows, rows.len() as int),
        0 <= k < windows.len(),
    ensures
        ({
            let all = side_rows(rows, windows);
            let window = rows.subrange(windows[k].0 as int, windows[k].1 + 1);
            let olds = window.filter(|r: DiffRow| r.old_line is Some);
            let news = window.filter(|r: DiffRow| r.new_line is Some);
            let minus = "@@ -"@ + text::dec(
                if olds.len() > 0 {
                    olds[0].old_line->0 as nat
                } else {
                    0
                },
            ) + ","@ + text::dec(olds.len());
            let plus = " +"@ + text::dec(
                if news.len() > 0 {
                    news[0].new_line->0 as nat
                } else {
                    0
                },
            ) + ","@ + text::dec(news.len());
            exists|p: int|
                0 <= p < all.len() && #[trigger] all[p] == SideRow::Hunk(k, minus + plus + " @@"@)
        }),
{
    let all = side_rows(rows, windows);
    let window = rows.subrange(windows[k].0 as int, windows[k].1 + 1);
    law_versions_are_the_numbered_rows(window);
    lemma_hunks_begin(rows, windows, k + 1);
    assert(windows.take(k + 1).drop_last() =~= windows.take(k));
    assert(windows.take(k + 1).last() == windows[k]);
    let p = hunks_shown(rows, windows.take(k)).len() as int;
    let part = hunks_shown(rows, windows.take(k + 1));
    assert(part[p] == SideRow::Hunk(k, hunk_label(window_rows(rows, windows[k]))));
    assert(all[p] == part[p]);
    let olds = window.filter(|r: DiffRow| r.old_line is Some);
    let news = window.filter(|r: DiffRow| r.new_line is Some);
    let minus = "@@ -"@ + text::dec(
        if olds.len() > 0 {
            olds[0].old_line->0 as nat
        } else {
            0
        },
    ) + ","@ + text::dec(olds.len());
    let plus = " +"@ + text::dec(
        if news.len() > 0 {
            news[0].new_line->0 as nat
        } else {
            0
        },
    ) + ","@ + text::dec(news.len());
    assert(hunk_label(window) =~= minus + plus + " @@"@);
}

/// The old numbers of a head come from the old numbers of the rows alone and the new ones from the
/// new numbers: rows with the same old numbers have heads that agree up to the plus, and rows with
/// the same new numbers have heads that agree from there on.
pub proof fn law_heads_keep_the_versions_apart(a: Seq<DiffRow>, b: Seq<DiffRow>)
    requires
        a.len() == b.len(),
    ensures
        ({
            let x = hunk_label(a);
            let y = hunk_label(b);
            &&& (forall|i: int| 0 <= i < a.len() ==> (#[trigger] a[i]).old_line == b[i].old_line)
                ==> exists|m: Seq<char>, p: Seq<char>, q: Seq<char>|
                x == #[trigger] (m + " +"@ + p) && y == #[trigger] (m + " +"@ + q)
            &&& (forall|i: int| 0 <= i < a.len() ==> (#[trigger] a[i]).new_line == b[i].new_line)
                ==> exists|p: Seq<char>, m: Seq<char>, n: Seq<char>|
                x == #[trigger] (m + " +"@ + p) && y == #[trigger] (n + " +"@ + p)
        }),
{
    let head = |r: Seq<DiffRow>|
        "@@ -"@ + text::dec(first_old(r) as nat) + ","@ + text::dec(old_texts(r).len());
    let rest = |r: Seq<DiffRow>|
        text::dec(first_new(r) as nat) + ","@ + text::dec(new_texts(r).len()) + " @@"@;
    assert(hunk_label(a) =~= head(a) + " +"@ + rest(a));
    assert(hunk_label(b) =~= head(b) + " +"@ + rest(b));
    if forall|i: int| 0 <= i < a.len() ==> (#[trigger] a[i]).old_line == b[i].old_line {
        lemma_old_numbers_alone(a, b);
        assert(hunk_label(b) == head(a) + " +"@ + rest(b));
    }
    if forall|i: int| 0 <= i < a.len() ==> (#[trigger] a[i]).new_line == b[i].new_line {
        lemma_new_numbers_alone(a, b);
        assert(hunk_label(b) == head(b) + " +"@ + rest(a));
    }
}

proof fn lemma_old_numbers_alone(a: Seq<DiffRow>, b: Seq<DiffRow>)
    requires
        a.len() == b.len(),
        forall|i: int| 0 <= i < a.len() ==> (#[trigger] a[i]).old_line == b[i].old_line,
    ensures
        first_old(a) == first_old(b),
        old_texts(a).len() == old_texts(b).len(),
    decreases a.len(),
{
    if a.len() > 0 {
        let n = a.len() - 1;
        assert(a[n].old_line == b[n].old_line);
        lemma_old_numbers_alone(a.drop_last(), b.drop_last());
        assert(a[0].old_line == b[0].old_line);
        assert forall|i: int| 0 <= i < a.drop_first().len() implies (
        #[trigger] a.drop_first()[i]).old_line == b.drop_first()[i].old_line by {
            assert(a[i + 1].old_line == b[i + 1].old_line);
        }
        lemma_old_numbers_alone(a.drop_first(), b.drop_first());
    }
}

proof fn lemma_new_numbers_alone(a: Seq<DiffRow>, b: Seq<DiffRow>)
    requires
        a.len() == b.len(),
        forall|i: int| 0 <= i < a.len() ==> (#[trigger] a[i]).new_line == b[i].new_line,
    ensures
        first_new(a) == first_new(b),
        new_texts(a).len() == new_texts(b).len(),
    decreases a.len(),
{
    if a.len() > 0 {
        let n = a.len() - 1;
        assert(a[n].new_line == b[n].new_line);
        lemma_new_numbers_alone(a.drop_last(), b.drop_last());
        assert(a[0].new_line == b[0].new_line);
        assert forall|i: int| 0 <= i < a.drop_first().len() implies (
        #[trigger] a.drop_first()[i]).new_line == b.drop_first()[i].new_line by {
            assert(a[i + 1].new_line == b[i + 1].new_line);
        }
        lemma_new_numbers_alone(a.drop_first(), b.drop_first());
    }
}

/// A hunk shows the three rows around each of its changes, as far as there are any, and no row that
/// is farther from every change; hunks do not touch.
pub proof fn law_hunks_are_changes_with_three_rows_around(
    rows: Seq<DiffRow>,
    windows: Seq<(usize, usize)>,
    i: int,
)
    requires
        are_hunks(rows, windows),
        0 <= i < rows.len(),
    ensures
        (exists|k: int| 0 <= k < windows.len() && (#[trigger] windows[k]).0 <= i <= windows[k].1)
            <==> (exists|c: int|
            0 <= c < rows.len() && (#[trigger] rows[c]).kind != DiffKind::Same && -3 <= c - i <= 3),
        forall|k: int| 0 < k < windows.len() ==> windows[k - 1].1 + 1 < (#[trigger] windows[k]).0,
{
    if exists|k: int| 0 <= k < windows.len() && (#[trigger] windows[k]).0 <= i <= windows[k].1 {
        let k = choose|k: int|
            0 <= k < windows.len() && (#[trigger] windows[k]).0 <= i <= windows[k].1;
        assert(holds(windows[k], i));
        assert(covered(windows, i));
        let c = choose|c: int| in_context(rows, c, i);
        assert(rows[c].kind != DiffKind::Same);
    }
    if exists|c: int|
        0 <= c < rows.len() && (#[trigger] rows[c]).kind != DiffKind::Same && -3 <= c - i <= 3 {
        let c = choose|c: int|
            0 <= c < rows.len() && (#[trigger] rows[c]).kind != DiffKind::Same && -3 <= c - i <= 3;
        assert(in_context(rows, c, i));
        assert(shown(rows, i));
        assert(covered(windows, i));
        let k = choose|k: int| 0 <= k < windows.len() && #[trigger] holds(windows[k], i);
        assert(windows[k].0 <= i <= windows[k].1);
    }
}

proof fn lemma_run_paired(
    rows: Seq<DiffRow>,
    from: int,
    to: int,
    rem: Seq<int>,
    add: Seq<int>,
    r: int,
)
    requires
        0 <= from <= to <= rows.len(),
        from <= r <= to,
        forall|i: int| from <= i < r ==> (#[trigger] rows[i]).kind == DiffKind::Removed,
        forall|i: int| r <= i < to ==> (#[trigger] rows[i]).kind == DiffKind::Added,
    ensures
        paired(rows, from, to, rem, add) == block(
            rem + Seq::new((r - from) as nat, |i: int| from + i),
            add + Seq::new((to - r) as nat, |i: int| r + i),
        ),
    decreases to - from,
{
    let more_rem = Seq::new((r - from) as nat, |i: int| from + i);
    let more_add = Seq::new((to - r) as nat, |i: int| r + i);
    if from == to {
        assert(rem + more_rem =~= rem);
        assert(add + more_add =~= add);
    } else if from < r {
        assert(rows[from].kind == DiffKind::Removed);
        lemma_run_paired(rows, from + 1, to, rem.push(from), add, r);
        assert(rem.push(from) + Seq::new((r - from - 1) as nat, |i: int| from + 1 + i) =~= rem
            + more_rem);
    } else {
        assert(rows[from].kind == DiffKind::Added);
        lemma_run_paired(rows, from + 1, to, rem, add.push(from), r + 1);
        assert(rem + Seq::new(0, |i: int| from + 1 + i) =~= rem + more_rem);
        assert(add.push(from) + Seq::new((to - r - 1) as nat, |i: int| r + 1 + i) =~= add
            + more_add);
    }
}

/// Lines that were replaced face each other in order, the first removed one the first added one; what
/// is left over on one side faces nothing.
pub proof fn law_removed_lines_face_added_ones(rows: Seq<DiffRow>, from: int, r: int, to: int, i: int)
    requires
        0 <= from <= r <= to <= rows.len(),
        forall|j: int| from <= j < r ==> (#[trigger] rows[j]).kind == DiffKind::Removed,
        forall|j: int| r <= j < to ==> (#[trigger] rows[j]).kind == DiffKind::Added,
        0 <= i,
        from + i < r || r + i < to,
    ensures
        i < side_by_side(rows, from, to).len(),
        side_by_side(rows, from, to)[i] == (SideRow::Pair {
            left: if from + i < r {
                Some(from + i)
            } else {
                None
            },
            right: if r + i < to {
                Some(r + i)
            } else {
                None
            },
        }),
        side_by_side(rows, from, to).len() == (if r - from >= to - r {
            r - from
        } else {
            to - r
        }),
{
    lemma_run_paired(rows, from, to, Seq::empty(), Seq::empty(), r);
    assert(Seq::<int>::empty() + Seq::new((r - from) as nat, |j: int| from + j) =~= Seq::new(
        (r - from) as nat,
        |j: int| from + j,
    ));
    assert(Seq::<int>::empty() + Seq::new((to - r) as nat, |j: int| r + j) =~= Seq::new(
        (to - r) as nat,
        |j: int| r + j,
    ));
}

/// A line that did not change faces itself.
pub proof fn law_unchanged_lines_face_themselves(rows: Seq<DiffRow>, from: int, to: int)
    requires
        0 <= from < to <= rows.len(),
        rows[from].kind == DiffKind::Same,
    ensures
        side_by_side(rows, from, to) == seq![SideRow::Pair { left: Some(from), right: Some(from) }]
            + side_by_side(rows, from + 1, to),
{
    assert(block(Seq::empty(), Seq::empty()) =~= Seq::<SideRow>::empty());
    assert(side_by_side(rows, from, to) =~= seq![
        SideRow::Pair { left: Some(from), right: Some(from) },
    ] + side_by_side(rows, from + 1, to));
}

/// The left column counts the old lines and tints what was removed, the right column counts the new
/// lines and tints what was added. The text stands in both as it is.
pub proof fn law_cells_count_their_version(left: DiffCell, right: DiffCell, row: DiffRow)
    requires
        cell_shows(left, Some(row), true),
        cell_shows(right, Some(row), false),
    ensures
        left is Line && right is Line,
        left->text@ == row.text@ && right->text@ == row.text@,
        row.old_line matches Some(n) ==> left->lineno@.len() > 0 && text::value(left->lineno@) == n,
        row.new_line matches Some(n) ==> right->lineno@.len() > 0 && text::value(right->lineno@)
            == n,
        row.old_line is None ==> left->lineno@.len() == 0,
        row.new_line is None ==> right->lineno@.len() == 0,
        left->tinted <==> row.kind == DiffKind::Removed,
        right->tinted <==> row.kind == DiffKind::Added,
{
    if let Some(n) = row.old_line {
        text::law_decimals_read_back(n as nat);
    }
    if let Some(n) = row.new_line {
        text::law_decimals_read_back(n as nat);
    }
}

/// The rows that are built for a hunk whose first row has the old number `m` and the new number `n`
/// stand under a head with `m` after the minus and `n` after the plus.
pub proof fn law_built_heads_begin_with_the_first_row(
    rows: Vec<DiffRow>,
    windows: Vec<(usize, usize)>,
    out: Vec<SideRenderRow>,
    k: int,
)
    requires
        windows_in(windows@, rows@.len() as int),
        call_ensures(build_side_rows, (&rows, &windows), out),
        0 <= k < windows@.len(),
    ensures
        exists|p: int|
            0 <= p < out@.len() && (#[trigger] out@[p]) is Hunk && out@[p]->Hunk_0 == k && {
                let label = out@[p]->Hunk_1@;
                let first = rows@[windows@[k].0 as int];
                &&& first.old_line matches Some(m) ==> ("@@ -"@ + text::dec(m as nat)
                    + ","@).is_prefix_of(label)
                &&& first.old_line matches Some(m) ==> first.new_line matches Some(n)
                    ==> exists|olds: Seq<char>, news: Seq<char>|
                    label == #[trigger] ("@@ -"@ + text::dec(m as nat) + ","@ + olds + " +"@
                        + text::dec(n as nat) + ","@ + news)
            },
{
    let w = windows@[k];
    let window = window_rows(rows@, w);
    let first = rows@[w.0 as int];
    law_heads_tell_where_hunks_stand(rows@, windows@, k);
    let all = side_rows(rows@, windows@);
    lemma_hunks_begin(rows@, windows@, k + 1);
    assert(windows@.take(k + 1).drop_last() =~= windows@.take(k));
    assert(windows@.take(k + 1).last() == windows@[k]);
    let p = hunks_shown(rows@, windows@.take(k)).len() as int;
    let part = hunks_shown(rows@, windows@.take(k + 1));
    assert(part[p] == SideRow::Hunk(k, hunk_label(window)));
    assert(all[p] == part[p]);
    assert(side_views(out@)[p] == out@[p]@);
    let label = hunk_label(window);
    assert(out@[p]->Hunk_1@ == label);
    assert(window[0] == first);
    let olds = text::dec(old_texts(window).len());
    let news = text::dec(new_texts(window).len()) + " @@"@;
    if let Some(m) = first.old_line {
        let start = "@@ -"@ + text::dec(m as nat) + ","@;
        assert(first_old(window) == m);
        assert(label.take(start.len() as int) =~= start);
        if let Some(n) = first.new_line {
            assert(first_new(window) == n);
            assert(label =~= "@@ -"@ + text::dec(m as nat) + ","@ + olds + " +"@ + text::dec(
                n as nat,
            ) + ","@ + news);
        }
    }
}

/// Taking a hunk back asks for the lines of the new version to be replaced, from the first of them on
/// and as many as the hunk has, by the lines of the old version in order.
pub proof fn law_taking_back_swaps_the_versions(
    view: DiffView,
    hi: usize,
    r: Option<DiffViewEvent>,
)
    requires
        view.inv(),
        hi < view.hunks@.len(),
        call_ensures(DiffView::revert_hunk, (&view, hi), r),
    ensures
        ({
            let window = view.diff.rows@.subrange(
                view.hunks@[hi as int].0 as int,
                view.hunks@[hi as int].1 + 1,
            );
            let olds = window.filter(|d: DiffRow| d.old_line is Some);
            let news = window.filter(|d: DiffRow| d.new_line is Some);
            &&& r is Some <==> news.len() > 0 && news[0].new_line->0 > 0
            &&& r matches Some(e) ==> {
                &&& e is RevertHunk
                &&& e->path == view.abs_path
                &&& e->new_start == news[0].new_line->0
                &&& e->new_count == news.len()
                &&& e->old_content@.len() == olds.len()
                &&& forall|i: int|
                    0 <= i < olds.len() ==> (#[trigger] e->old_content@[i])@ == olds[i].text@
            }
        }),
{
    let window = window_rows(view.diff.rows@, view.hunks@[hi as int]);
    law_versions_are_the_numbered_rows(window);
    let olds = window.filter(|d: DiffRow| d.old_line is Some);
    if let Some(e) = r {
        let got = text::texts(e->old_content@);
        assert(got == old_texts(window));
        assert(got.len() == olds.len());
        assert forall|i: int| 0 <= i < olds.len() implies (#[trigger] e->old_content@[i])@
            == olds[i].text@ by {
            assert(got[i] == e->old_content@[i]@);
        }
    }
}

} // verus!
