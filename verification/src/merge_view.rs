//! Resolving the conflicts of one file, block by block.
use vstd::prelude::*;

use crate::path;
use crate::text;

verus! {

/// How many lines of one side are shown. Longer blocks are cut short on the screen only.
pub const MAX_PANE_LINES: usize = 120;

/// A side of a conflict.
#[derive(Clone, Copy, Debug, PartialEq, Eq, Structural)]
pub enum MergeSide {
    Ours,
    Theirs,
}

/// What the view asks of its owner.
pub enum MergeViewEvent {
    Resolved,
}

/// The two sides of a conflict as the file holds them.
pub struct ConflictChunk {
    pub ours_text: String,
    pub theirs_text: String,
}

/// The two sides of a conflict, line by line.
pub struct ChunkRow {
    pub ours: Vec<String>,
    pub theirs: Vec<String>,
}

/// Work to be done outside.
pub enum MergeRequest {
    /// Read the conflicts of this file.
    Parse(String),
    /// Write the file with the chosen sides and mark it as resolved.
    Resolve { cwd: String, rel_path: String, choices: Vec<MergeSide> },
    /// Take one side of the whole file, by its name.
    TakeWhole { cwd: String, rel_path: String, side: &'static str },
}

/// The merge view of one file.
pub struct MergeView {
    pub cwd: String,
    pub rel_path: String,
    pub chunks: Vec<ChunkRow>,
    pub choices: Vec<Option<MergeSide>>,
    pub loaded: bool,
    pub busy: bool,
    pub status: String,
}

/// One side as it is drawn.
pub struct MergePane {
    pub selected: bool,
    pub rejected: bool,
    pub label: &'static str,
    pub button: &'static str,
    /// Whether this side has no line at all.
    pub empty: bool,
    pub lines: Vec<String>,
    /// What is said of the lines that are not shown.
    pub more: Option<String>,
}

/// What the frame around the conflicts shows.
pub struct MergeFrame {
    pub title: String,
    pub progress: String,
    pub parsing: bool,
    /// Whether all blocks can be given the same side.
    pub can_choose_all: bool,
    /// Whether a side of the whole file can be taken.
    pub can_take_whole: bool,
    pub can_apply: bool,
}

/// The lines of one side: none for an empty text, else what stands between the line feeds, without
/// carriage returns at the end.
pub open spec fn side_lines(s: Seq<char>) -> Seq<Seq<char>> {
    if s.len() == 0 {
        Seq::empty()
    } else {
        text::split_on(s, '\n').map_values(|l: Seq<char>| text::without_trailing(l, '\r'))
    }
}

/// The lines of one side.
pub fn split_lines(s: &str) -> (r: Vec<String>)
    ensures
        text::texts(r@) == side_lines(s@),
{
    let mut out: Vec<String> = Vec::new();
    if text::first_char(s).is_none() {
        assert(text::texts(out@) =~= side_lines(s@));
        return out;
    }
    let pieces = text::split(s, '\n');
    let ghost all = text::split_on(s@, '\n');
    let ghost lines = side_lines(s@);
    let mut i: usize = 0;
    assert(text::texts(out@) =~= lines.take(0));
    while i < pieces.len()
        invariant
            i <= pieces@.len(),
            all == text::texts(pieces@),
            lines == all.map_values(|l: Seq<char>| text::without_trailing(l, '\r')),
            text::texts(out@) == lines.take(i as int),
        decreases pieces@.len() - i,
    {
        let ghost prev = text::texts(out@);
        out.push(text::trim_trailing(pieces[i].as_str(), '\r'));
        assert(text::texts(out@) =~= prev.push(lines[i as int]));
        i += 1;
        assert(text::texts(out@) =~= lines.take(i as int));
    }
    assert(lines.take(lines.len() as int) =~= lines);
    out
}

/// How many blocks have a side.
pub open spec fn chosen(choices: Seq<Option<MergeSide>>) -> nat
    decreases choices.len(),
{
    if choices.len() == 0 {
        0
    } else {
        chosen(choices.drop_last()) + if choices.last() is Some {
            1nat
        } else {
            0nat
        }
    }
}

/// Whether every block has a side.
pub open spec fn all_chosen(choices: Seq<Option<MergeSide>>) -> bool {
    forall|i: int| 0 <= i < choices.len() ==> #[trigger] choices[i] is Some
}

/// As many blocks have a side as there are exactly when every block has one.
pub proof fn law_counting_the_chosen(choices: Seq<Option<MergeSide>>)
    ensures
        chosen(choices) <= choices.len(),
        chosen(choices) == choices.len() <==> all_chosen(choices),
    decreases choices.len(),
{
    if choices.len() > 0 {
        law_counting_the_chosen(choices.drop_last());
        if all_chosen(choices) {
            assert forall|i: int| 0 <= i < choices.drop_last().len() implies #[trigger] choices.drop_last()[i] is Some by {
                assert(choices[i] is Some);
            }
            assert(choices[choices.len() - 1] is Some);
        }
        if all_chosen(choices.drop_last()) && choices.last() is Some {
            assert forall|i: int| 0 <= i < choices.len() implies #[trigger] choices[i] is Some by {
                if i < choices.len() - 1 {
                    assert(choices.drop_last()[i] is Some);
                }
            }
        }
    }
}

impl MergeView {
    /// Each block has its slot for a choice.
    pub open spec fn inv(self) -> bool {
        self.choices@.len() == self.chunks@.len()
    }

    /// A view of the file `rel_path` of the repository at `cwd`, whose conflicts have to be read.
    pub fn new(cwd: String, rel_path: String) -> (r: (Self, MergeRequest))
        ensures
            r.0.inv(),
            r.0.cwd == cwd,
            r.0.rel_path == rel_path,
            r.0.chunks@.len() == 0,
            !r.0.loaded,
            !r.0.busy,
            r.0.status@.len() == 0,
            r.1 is Parse,
            r.1->Parse_0@ == path::joined_path(cwd@, rel_path@),
    {
        let abs = path::join(cwd.as_str(), rel_path.as_str());
        (
            Self {
                cwd,
                rel_path,
                chunks: Vec::new(),
                choices: Vec::new(),
                loaded: false,
                busy: false,
                status: String::new(),
            },
            MergeRequest::Parse(abs),
        )
    }

    /// The conflicts have been read: none of them has a side yet.
    pub fn parsed(&mut self, parsed: Result<Vec<ConflictChunk>, String>)
        requires
            old(self).inv(),
        ensures
            final(self).inv(),
            final(self).loaded,
            final(self).cwd == old(self).cwd,
            final(self).rel_path == old(self).rel_path,
            final(self).busy == old(self).busy,
            parsed matches Err(e) ==> final(self).chunks == old(self).chunks && final(self).choices
                == old(self).choices && final(self).status@ == "解析失败: "@ + e@,
            parsed matches Ok(v) ==> {
                &&& final(self).chunks@.len() == v@.len()
                &&& forall|i: int|
                    0 <= i < v@.len() ==> {
                        &&& text::texts((#[trigger] final(self).chunks@[i]).ours@) == side_lines(
                            v@[i].ours_text@,
                        )
                        &&& text::texts(final(self).chunks@[i].theirs@) == side_lines(
                            v@[i].theirs_text@,
                        )
                    }
                &&& forall|i: int|
                    0 <= i < v@.len() ==> #[trigger] final(self).choices@[i] is None
                &&& final(self).status@ == (if v@.len() == 0 {
                    "文件里没有冲突标记"@
                } else {
                    old(self).status@
                })
            },
    {
        self.loaded = true;
        match parsed {
            Ok(v) => {
                let mut chunks: Vec<ChunkRow> = Vec::new();
                let mut choices: Vec<Option<MergeSide>> = Vec::new();
                let mut i: usize = 0;
                while i < v.len()
                    invariant
                        i <= v@.len(),
                        chunks@.len() == i,
                        choices@.len() == i,
                        forall|j: int|
                            0 <= j < i ==> {
                                &&& text::texts((#[trigger] chunks@[j]).ours@) == side_lines(
                                    v@[j].ours_text@,
                                )
                                &&& text::texts(chunks@[j].theirs@) == side_lines(
                                    v@[j].theirs_text@,
                                )
                            },
                        forall|j: int| 0 <= j < i ==> #[trigger] choices@[j] is None,
                    decreases v@.len() - i,
                {
                    chunks.push(
                        ChunkRow {
                            ours: split_lines(v[i].ours_text.as_str()),
                            theirs: split_lines(v[i].theirs_text.as_str()),
                        },
                    );
                    choices.push(None);
                    i += 1;
                }
                self.chunks = chunks;
                self.choices = choices;
                if self.chunks.len() == 0 {
                    self.status = "文件里没有冲突标记".to_owned();
                }
            },
            Err(e) => {
                self.status = text::cat2("解析失败: ", e.as_str());
            },
        }
    }

    /// Gives block `ix` the side `side`.
    pub fn choose_side(&mut self, ix: usize, side: MergeSide)
        requires
            old(self).inv(),
        ensures
            final(self).inv(),
            *final(self) == (Self { choices: final(self).choices, ..*old(self) }),
            ix < old(self).choices@.len() ==> final(self).choices@ == old(self).choices@.update(
                ix as int,
                Some(side),
            ),
            ix >= old(self).choices@.len() ==> *final(self) == *old(self),
    {
        if ix < self.choices.len() {
            self.choices.set(ix, Some(side));
        }
    }

    /// Gives every block the side `side`.
    pub fn choose_all(&mut self, side: MergeSide)
        requires
            old(self).inv(),
        ensures
            final(self).inv(),
            *final(self) == (Self { choices: final(self).choices, ..*old(self) }),
            forall|i: int|
                0 <= i < final(self).choices@.len() ==> #[trigger] final(self).choices@[i] == Some(
                    side,
                ),
    {
        let n = self.choices.len();
        let mut i: usize = 0;
        while i < n
            invariant
                i <= n,
                n == self.choices@.len(),
                n == old(self).choices@.len(),
                *self == (Self { choices: self.choices, ..*old(self) }),
                forall|j: int| 0 <= j < i ==> #[trigger] self.choices@[j] == Some(side),
            decreases n - i,
        {
            self.choices.set(i, Some(side));
            i += 1;
        }
    }

    /// Whether every block has a side.
    fn complete(&self) -> (r: bool)
        ensures
            r == all_chosen(self.choices@),
    {
        let mut i: usize = 0;
        while i < self.choices.len()
            invariant
                i <= self.choices@.len(),
                forall|j: int| 0 <= j < i ==> #[trigger] self.choices@[j] is Some,
            decreases self.choices@.len() - i,
        {
            if self.choices[i].is_none() {
                return false;
            }
            i += 1;
        }
        true
    }

    /// Writes the chosen sides, once every block has one and nothing else is being written.
    pub fn apply(&mut self) -> (r: Option<MergeRequest>)
        requires
            old(self).inv(),
        ensures
            final(self).inv(),
            r is Some <==> !old(self).busy && all_chosen(old(self).choices@),
            r is None ==> *final(self) == *old(self),
            r matches Some(q) ==> {
                &&& *final(self) == (Self {
                    busy: true,
                    status: final(self).status,
                    ..*old(self)
                })
                &&& final(self).status@ == "应用中…"@
                &&& q is Resolve
                &&& q->Resolve_cwd == old(self).cwd
                &&& q->Resolve_rel_path == old(self).rel_path
                &&& q->choices@.len() == old(self).choices@.len()
                &&& forall|i: int|
                    0 <= i < q->choices@.len() ==> Some(#[trigger] q->choices@[i]) == old(
                        self,
                    ).choices@[i]
            },
    {
        if self.busy || !self.complete() {
            return None;
        }
        let mut choices: Vec<MergeSide> = Vec::new();
        let mut i: usize = 0;
        while i < self.choices.len()
            invariant
                i <= self.choices@.len(),
                *self == *old(self),
                all_chosen(self.choices@),
                choices@.len() == i,
                forall|j: int| 0 <= j < i ==> Some(#[trigger] choices@[j]) == self.choices@[j],
            decreases self.choices@.len() - i,
        {
            assert(self.choices@[i as int] is Some);
            if let Some(side) = self.choices[i] {
                choices.push(side);
            }
            i += 1;
        }
        self.busy = true;
        self.status = "应用中…".to_owned();
        Some(
            MergeRequest::Resolve {
                cwd: self.cwd.clone(),
                rel_path: self.rel_path.clone(),
                choices,
            },
        )
    }

    /// Takes one side of the whole file, unless something is being written.
    pub fn take_whole(&mut self, side: MergeSide) -> (r: Option<MergeRequest>)
        requires
            old(self).inv(),
        ensures
            final(self).inv(),
            r is Some <==> !old(self).busy,
            r is None ==> *final(self) == *old(self),
            r matches Some(q) ==> {
                &&& *final(self) == (Self {
                    busy: true,
                    status: final(self).status,
                    ..*old(self)
                })
                &&& final(self).status@ == "应用中…"@
                &&& q is TakeWhole
                &&& q->TakeWhole_cwd == old(self).cwd
                &&& q->TakeWhole_rel_path == old(self).rel_path
                &&& q->side@ == (match side {
                    MergeSide::Ours => "ours"@,
                    MergeSide::Theirs => "theirs"@,
                })
            },
    {
        if self.busy {
            return None;
        }
        self.busy = true;
        self.status = "应用中…".to_owned();
        let flag: &'static str = match side {
            MergeSide::Ours => "ours",
            MergeSide::Theirs => "theirs",
        };
        Some(
            MergeRequest::TakeWhole {
                cwd: self.cwd.clone(),
                rel_path: self.rel_path.clone(),
                side: flag,
            },
        )
    }

    /// The writing is over.
    pub fn written(&mut self, result: Result<(), String>) -> (r: Option<MergeViewEvent>)
        requires
            old(self).inv(),
        ensures
            final(self).inv(),
            r is Some <==> result is Ok,
            *final(self) == (Self { busy: false, status: final(self).status, ..*old(self) }),
            result is Ok ==> final(self).status == old(self).status,
            result matches Err(e) ==> final(self).status@ == "失败: "@ + e@,
    {
        self.busy = false;
        match result {
            Ok(_) => Some(MergeViewEvent::Resolved),
            Err(e) => {
                self.status = text::cat2("失败: ", e.as_str());
                None
            },
        }
    }

    /// One side of block `ix` as it is drawn.
    pub fn pane(&self, ix: usize, side: MergeSide) -> (p: MergePane)
        requires
            self.inv(),
            ix < self.chunks@.len(),
        ensures
            ({
                let lines = if side == MergeSide::Ours {
                    self.chunks@[ix as int].ours@
                } else {
                    self.chunks@[ix as int].theirs@
                };
                let n = lines.len() as int;
                &&& p.selected == (self.choices@[ix as int] == Some(side))
                &&& p.rejected == (self.choices@[ix as int] is Some && !p.selected)
                &&& p.label@ == (match side {
                    MergeSide::Ours => "当前分支 (ours)"@,
                    MergeSide::Theirs => "并入分支 (theirs)"@,
                })
                &&& p.button@ == (if p.selected {
                    "已采用 ✓"@
                } else {
                    "采用"@
                })
                &&& p.empty == (n == 0)
                &&& p.lines@ == lines.take(
                    if n < MAX_PANE_LINES {
                        n
                    } else {
                        MAX_PANE_LINES as int
                    },
                )
                &&& text::opt_text(p.more) == (if n > MAX_PANE_LINES {
                    Some("…(还有 "@ + text::dec((n - MAX_PANE_LINES) as nat) + " 行)"@)
                } else {
                    None
                })
            }),
    {
        let lines = match side {
            MergeSide::Ours => &self.chunks[ix].ours,
            MergeSide::Theirs => &self.chunks[ix].theirs,
        };
        let selected = match self.choices[ix] {
            Some(s) => s == side,
            None => false,
        };
        let rejected = self.choices[ix].is_some() && !selected;
        let label: &'static str = match side {
            MergeSide::Ours => "当前分支 (ours)",
            MergeSide::Theirs => "并入分支 (theirs)",
        };
        let button: &'static str = if selected {
            "已采用 ✓"
        } else {
            "采用"
        };
        let n = lines.len();
        let count: usize = if n < MAX_PANE_LINES {
            n
        } else {
            MAX_PANE_LINES
        };
        let mut shown: Vec<String> = Vec::new();
        let mut i: usize = 0;
        while i < count
            invariant
                i <= count <= lines@.len(),
                shown@ == lines@.take(i as int),
            decreases count - i,
        {
            shown.push(lines[i].clone());
            i += 1;
            assert(shown@ =~= lines@.take(i as int));
        }
        let more = if n > MAX_PANE_LINES {
            Some(
                text::cat3(
                    "…(还有 ",
                    text::dec_usize(n - MAX_PANE_LINES).as_str(),
                    " 行)",
                ),
            )
        } else {
            None
        };
        MergePane { selected, rejected, label, button, empty: n == 0, lines: shown, more }
    }

    /// What the frame shows.
    pub fn frame(&self) -> (f: MergeFrame)
        requires
            self.inv(),
        ensures
            f.title@ == "合并冲突 — "@ + self.rel_path@,
            f.progress@ == text::dec(chosen(self.choices@)) + "/"@ + text::dec(self.chunks@.len())
                + " 块已选边"@,
            f.parsing == !self.loaded,
            f.can_choose_all == (!self.busy && self.chunks@.len() > 0),
            f.can_take_whole == !self.busy,
            f.can_apply == (!self.busy && self.chunks@.len() > 0 && all_chosen(self.choices@)),
    {
        let mut count: usize = 0;
        let mut i: usize = 0;
        assert(self.choices@.take(0) =~= Seq::<Option<MergeSide>>::empty());
        while i < self.choices.len()
            invariant
                i <= self.choices@.len(),
                count <= i,
                count == chosen(self.choices@.take(i as int)),
            decreases self.choices@.len() - i,
        {
            assert(self.choices@.take(i + 1).drop_last() =~= self.choices@.take(i as int));
            if self.choices[i].is_some() {
                count += 1;
            }
            i += 1;
        }
        assert(self.choices@.take(self.choices@.len() as int) =~= self.choices@);
        proof {
            law_counting_the_chosen(self.choices@);
        }
        let total = self.chunks.len();
        MergeFrame {
            title: text::cat2("合并冲突 — ", self.rel_path.as_str()),
            progress: text::cat4(
                text::dec_usize(count).as_str(),
                "/",
                text::dec_usize(total).as_str(),
                " 块已选边",
            ),
            parsing: !self.loaded,
            can_choose_all: !self.busy && total > 0,
            can_take_whole: !self.busy,
            can_apply: !self.busy && total > 0 && count == total,
        }
    }

    /// The head of block `ix`.
    pub fn block_title(&self, ix: usize) -> (r: String)
        requires
            ix < self.chunks@.len(),
        ensures
            r@ == "冲突 #"@ + text::dec((ix + 1) as nat),
    {
        let n = self.chunks.len();
        text::cat2("冲突 #", text::dec_usize(ix + 1).as_str())
    }
}

/// Giving every block the same side makes the conflicts ready to be written.
pub proof fn law_choosing_all_completes(choices: Seq<Option<MergeSide>>, side: MergeSide)
    requires
        forall|i: int| 0 <= i < choices.len() ==> #[trigger] choices[i] == Some(side),
    ensures
        all_chosen(choices),
{
}

/// The lines of a text, of which an empty one has one empty line.
spec fn lines_or_blank(s: Seq<char>) -> Seq<Seq<char>> {
    if s.len() == 0 {
        seq![Seq::empty()]
    } else {
        side_lines(s)
    }
}

/// No character of a side is lost: without carriage returns its lines, with line feeds between them,
/// are its text again.
pub proof fn law_lines_of_a_side_make_its_text(s: Seq<char>)
    requires
        s.len() > 0,
        !s.contains('\r'),
    ensures
        text::joined(side_lines(s), seq!['\n']) == s,
        forall|i: int|
            0 <= i < side_lines(s).len() ==> !(#[trigger] side_lines(s)[i]).contains('\n'),
{
    let pieces = text::split_on(s, '\n');
    text::law_pieces_make_the_text(s, '\n');
    assert forall|i: int| 0 <= i < pieces.len() implies text::without_trailing(
        #[trigger] pieces[i],
        '\r',
    ) == pieces[i] by {
        lemma_pieces_hold_no_more(s, '\n', '\r', i);
        text::law_trailing_characters_go(pieces[i], '\r');
        let kept = text::without_trailing(pieces[i], '\r');
        if kept.len() < pieces[i].len() {
            assert(pieces[i][kept.len() as int] == '\r');
            assert(pieces[i].contains('\r'));
        }
        assert(kept =~= pieces[i]);
    }
    assert(side_lines(s) =~= pieces);
}

proof fn lemma_pieces_hold_no_more(s: Seq<char>, c: char, d: char, i: int)
    requires
        !s.contains(d),
        0 <= i < text::split_on(s, c).len(),
    ensures
        !text::split_on(s, c)[i].contains(d),
    decreases s.len(),
{
    let all = text::split_on(s, c);
    if s.len() > 0 {
        let init = s.drop_last();
        let rest = text::split_on(init, c);
        text::lemma_split_nonempty(init, c);
        assert(s[s.len() - 1] != d);
        assert(!init.contains(d)) by {
            if init.contains(d) {
                let k = init.index_of(d);
                assert(s[k] == d);
            }
        }
        if i < rest.len() {
            lemma_pieces_hold_no_more(init, c, d, i);
            if s.last() != c && i == rest.len() - 1 {
                let p = rest.last().push(s.last());
                assert(all[i] == p);
                if p.contains(d) {
                    let k = p.index_of(d);
                    assert(rest.last()[k] == d);
                }
            }
        }
    }
}

/// A side has a line more for each line feed: what stands before one gives the lines before, what
/// stands after it the lines after.
pub proof fn law_a_line_feed_ends_a_line(a: Seq<char>, b: Seq<char>)
    ensures
        side_lines(a + seq!['\n'] + b) == (if a.len() == 0 {
            seq![Seq::empty()]
        } else {
            side_lines(a)
        }) + (if b.len() == 0 {
            seq![Seq::empty()]
        } else {
            side_lines(b)
        }),
        side_lines(Seq::empty()).len() == 0,
{
    let s = a + seq!['\n'] + b;
    text::law_split_where_it_stands(a, '\n', b);
    let cut = |l: Seq<char>| text::without_trailing(l, '\r');
    assert(text::split_on(s, '\n').map_values(cut) =~= text::split_on(a, '\n').map_values(cut)
        + text::split_on(b, '\n').map_values(cut));
    assert(side_lines(s) == text::split_on(s, '\n').map_values(cut));
    assert forall|t: Seq<char>| #[trigger] lines_or_blank(t) == text::split_on(t, '\n').map_values(
        cut,
    ) by {
        if t.len() == 0 {
            assert(text::split_on(t, '\n') =~= seq![Seq::<char>::empty()]);
            assert(lines_or_blank(t) =~= text::split_on(t, '\n').map_values(cut));
        }
    }
    assert(lines_or_blank(a) + lines_or_blank(b) =~= side_lines(s));
}

/// A line keeps all its characters but the carriage returns at its end.
pub proof fn law_a_line_loses_only_carriage_returns_at_its_end(line: Seq<char>, k: nat)
    requires
        line.len() > 0,
        !line.contains('\n'),
        line.last() != '\r',
    ensures
        side_lines(line + Seq::new(k, |i: int| '\r')) == seq![line],
    decreases k,
{
    let s = line + Seq::new(k, |i: int| '\r');
    assert(!s.contains('\n')) by {
        if s.contains('\n') {
            let i = s.index_of('\n');
            assert(i >= line.len());
        }
    }
    text::law_split_where_it_stands(s, '\n', Seq::empty());
    text::law_trailing_characters_go(s, '\r');
    let kept = text::without_trailing(s, '\r');
    if kept.len() > line.len() {
        assert(kept.last() == s[kept.len() - 1]);
    }
    if kept.len() < line.len() {
        assert(s[line.len() - 1] == '\r');
        assert(line[line.len() - 1] == line.last());
    }
    assert(kept =~= line);
    assert(side_lines(s) =~= seq![line]);
}

/// A choice for one block leaves the choices for the others, and counts it at most once.
pub proof fn law_one_choice_at_a_time(choices: Seq<Option<MergeSide>>, ix: int, side: MergeSide)
    requires
        0 <= ix < choices.len(),
    ensures
        chosen(choices.update(ix, Some(side))) == chosen(choices) + (if choices[ix] is None {
            1nat
        } else {
            0nat
        }),
    decreases choices.len(),
{
    let after = choices.update(ix, Some(side));
    if ix == choices.len() - 1 {
        assert(after.drop_last() =~= choices.drop_last());
    } else {
        assert(after.drop_last() =~= choices.drop_last().update(ix, Some(side)));
        law_one_choice_at_a_time(choices.drop_last(), ix, side);
    }
}

/// Each side of a block shows the text of that side of the conflict: its lines, with line feeds
/// between them, are the text again, as far as it holds no carriage return.
pub proof fn law_sides_show_their_texts(
    view: &mut MergeView,
    conflicts: Vec<ConflictChunk>,
    i: int,
)
    requires
        old(view).inv(),
        call_ensures(MergeView::parsed, (view, Ok(conflicts)), ()),
        0 <= i < conflicts@.len(),
    ensures
        final(view).chunks@.len() == conflicts@.len(),
        ({
            let ours = conflicts@[i].ours_text@;
            let theirs = conflicts@[i].theirs_text@;
            let row = final(view).chunks@[i];
            &&& !ours.contains('\r') ==> text::joined(text::texts(row.ours@), seq!['\n']) == ours
            &&& !theirs.contains('\r') ==> text::joined(text::texts(row.theirs@), seq!['\n'])
                == theirs
            &&& ours.len() == 0 <==> row.ours@.len() == 0
            &&& theirs.len() == 0 <==> row.theirs@.len() == 0
        }),
        final(view).choices@[i] is None,
{
    let ours = conflicts@[i].ours_text@;
    let theirs = conflicts@[i].theirs_text@;
    let row = final(view).chunks@[i];
    assert(text::texts(row.ours@) == side_lines(ours));
    assert(text::texts(row.theirs@) == side_lines(theirs));
    lemma_side_of_text(ours);
    lemma_side_of_text(theirs);
}

proof fn lemma_side_of_text(s: Seq<char>)
    ensures
        !s.contains('\r') ==> text::joined(side_lines(s), seq!['\n']) == s,
        s.len() == 0 <==> side_lines(s).len() == 0,
{
    text::lemma_split_nonempty(s, '\n');
    if s.len() > 0 && !s.contains('\r') {
        law_lines_of_a_side_make_its_text(s);
    } else if s.len() == 0 {
        assert(text::joined(side_lines(s), seq!['\n']) =~= s);
    }
}

/// A pane shows the first lines of its own side, up to 120, and tells how many more there are. A
/// side is drawn as taken exactly when it was chosen, and as left exactly when the other one was.
pub proof fn law_panes_show_their_side(view: MergeView, ix: usize, ours: MergePane, theirs: MergePane)
    requires
        view.inv(),
        ix < view.chunks@.len(),
        call_ensures(MergeView::pane, (&view, ix, MergeSide::Ours), ours),
        call_ensures(MergeView::pane, (&view, ix, MergeSide::Theirs), theirs),
    ensures
        ({
            let row = view.chunks@[ix as int];
            let choice = view.choices@[ix as int];
            &&& row.ours@.len() <= 120 ==> ours.lines@ == row.ours@ && ours.more is None
            &&& row.theirs@.len() <= 120 ==> theirs.lines@ == row.theirs@ && theirs.more is None
            &&& row.ours@.len() > 120 ==> ours.lines@ == row.ours@.take(120) && ours.more is Some
            &&& row.theirs@.len() > 120 ==> theirs.lines@ == row.theirs@.take(120)
                && theirs.more is Some
            &&& ours.selected == theirs.rejected && theirs.selected == ours.rejected
            &&& ours.selected <==> choice == Some(MergeSide::Ours)
            &&& theirs.selected <==> choice == Some(MergeSide::Theirs)
            &&& ours.label@ != theirs.label@
        }),
{
    let row = view.chunks@[ix as int];
    if row.ours@.len() <= 120 {
        assert(ours.lines@ =~= row.ours@);
    }
    if row.theirs@.len() <= 120 {
        assert(theirs.lines@ =~= row.theirs@);
    }
    match view.choices@[ix as int] {
        Some(side) => {
            assert(side == MergeSide::Ours || side == MergeSide::Theirs);
        },
        None => {},
    }
    assert(row.ours@.len() <= 120 <==> text::opt_text(ours.more) is None);
    assert(row.theirs@.len() <= 120 <==> text::opt_text(theirs.more) is None);
    reveal_strlit("当前分支 (ours)");
    reveal_strlit("并入分支 (theirs)");
    assert(ours.label@[0] != theirs.label@[0]);
}

/// What is written are the choices that were made, block by block; nothing is written while a block
/// has none.
pub proof fn law_the_choices_are_written(view: &mut MergeView, r: Option<MergeRequest>, i: int)
    requires
        old(view).inv(),
        call_ensures(MergeView::apply, (view,), r),
        0 <= i < old(view).choices@.len(),
    ensures
        old(view).choices@[i] is None ==> r is None,
        r matches Some(q) ==> q is Resolve && q->choices@.len() == old(view).choices@.len()
            && old(view).choices@[i] == Some(q->choices@[i]) && q->Resolve_rel_path == old(
            view,
        ).rel_path && q->Resolve_cwd == old(view).cwd,
{
    if let Some(q) = r {
        assert(Some(q->choices@[i]) == old(view).choices@[i]);
    }
}

/// Nothing can be applied before every conflict has a side, nor while something runs; the progress tells
/// how many have one, of how many.
pub proof fn law_applying_needs_every_choice(v: MergeView, f: MergeFrame, i: int)
    requires
        v.inv(),
        call_ensures(MergeView::frame, (&v,), f),
        0 <= i < v.choices@.len(),
    ensures
        v.choices@[i] is None ==> !f.can_apply,
        v.busy ==> !f.can_apply && !f.can_choose_all && !f.can_take_whole,
        !v.busy && v.chunks@.len() > 0 && (forall|k: int|
            0 <= k < v.choices@.len() ==> (#[trigger] v.choices@[k]) is Some) ==> f.can_apply,
        f.parsing <==> !v.loaded,
        exists|done: Seq<char>, rest: Seq<char>|
            f.progress@ == #[trigger] (done + "/"@ + rest) && done == text::dec(
                chosen(v.choices@),
            ) && text::dec(v.chunks@.len()).is_prefix_of(rest),
        v.rel_path@.is_suffix_of(f.title@),
{
    let done = text::dec(chosen(v.choices@));
    let n = text::dec(v.chunks@.len());
    let rest = n + " 块已选边"@;
    assert(f.progress@ =~= done + "/"@ + rest);
    assert(rest.take(n.len() as int) =~= n);
    assert(f.title@.skip(f.title@.len() - v.rel_path@.len()) =~= v.rel_path@);
}

/// Choosing a side is about one conflict, choosing all about every one; taking the whole file asks for
/// that side of this file.
pub proof fn law_sides_are_chosen_as_asked(
    a: &mut MergeView,
    b: &mut MergeView,
    c: &mut MergeView,
    ix: usize,
    side: MergeSide,
    r: Option<MergeRequest>,
    i: int,
)
    requires
        old(a).inv(),
        old(b).inv(),
        old(c).inv(),
        call_ensures(MergeView::choose_side, (a, ix, side), ()),
        call_ensures(MergeView::choose_all, (b, side), ()),
        call_ensures(MergeView::take_whole, (c, side), r),
        0 <= i < old(a).choices@.len(),
        i < old(b).choices@.len(),
    ensures
        i == ix ==> final(a).choices@[i] == Some(side),
        i != ix ==> final(a).choices@[i] == old(a).choices@[i],
        final(a).choices@.len() == old(a).choices@.len(),
        final(b).chunks == old(b).chunks,
        0 <= i < final(b).choices@.len() ==> final(b).choices@[i] == Some(side),
        old(c).busy ==> r is None,
        !old(c).busy ==> (r matches Some(MergeRequest::TakeWhole { cwd, rel_path, side: s }) && cwd
            == old(c).cwd && rel_path == old(c).rel_path && (side is Ours <==> s@ == "ours"@) && (
        side is Theirs <==> s@ == "theirs"@)),
        final(c).choices == old(c).choices,
{
    reveal_strlit("ours");
    reveal_strlit("theirs");
    assert("ours"@.len() == 4 && "theirs"@.len() == 6);
}

/// Conflicts are numbered from one.
pub proof fn law_conflicts_are_numbered_from_one(v: MergeView, ix: usize, r: String)
    requires
        ix < v.chunks@.len(),
        call_ensures(MergeView::block_title, (&v, ix), r),
    ensures
        text::dec((ix + 1) as nat).is_suffix_of(r@),
{
    let n = text::dec((ix + 1) as nat);
    assert(r@.skip(r@.len() - n.len()) =~= n);
}

/// A failure leaves the choices as they are, and the view can be used again.
pub proof fn law_a_failed_write_can_be_tried_again(v: &mut MergeView, e: String, r: Option<MergeViewEvent>)
    requires
        old(v).inv(),
        call_ensures(MergeView::written, (v, Err::<(), String>(e)), r),
    ensures
        r is None && !final(v).busy && final(v).choices == old(v).choices && e@.is_suffix_of(
            final(v).status@,
        ),
{
    assert(final(v).status@.skip(final(v).status@.len() - e@.len()) =~= e@);
}

} // verus!
