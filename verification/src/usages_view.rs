//! Places where a symbol is used, with a preview of the selected one.
use vstd::prelude::*;

use crate::path;
use crate::preview;
use crate::preview::{PreviewPane, PreviewStep};
use crate::select;
use crate::text;

verus! {

/// One use of a symbol; line and character count from 0.
pub struct LspUsage {
    pub uri: String,
    /// The file that a `file://` address names.
    pub path: String,
    /// The decoded form of `usage_name` of the address.
    pub label: String,
    pub line: u32,
    pub character: u32,
    pub text: String,
}

/// What the view asks of its owner. The address names a file of the project or a library class.
pub enum UsagesEvent {
    Open { uri: String, line: u32, character: u32 },
}

/// A row of the list.
pub struct UsageRow {
    pub code: String,
    pub place: String,
    pub selected: bool,
}

/// The last part of an address, which names the class or the file: what follows the first `?` is
/// about the library and does not count.
pub open spec fn name_part(uri: Seq<char>) -> Seq<char> {
    text::after_last(text::before_first(uri, '?'), '/')
}

/// The last part of an address, still encoded.
pub fn usage_name(uri: &str) -> (r: String)
    ensures
        r@ == name_part(uri@),
{
    let p = text::take_before(uri, '?');
    text::take_after_last(p.as_str(), '/')
}

/// The usages view.
pub struct UsagesView {
    pub symbol_file: String,
    pub usages: Vec<LspUsage>,
    pub selected: usize,
    pub preview: PreviewPane,
}

/// The preview of use `u`: `after` is what `before` turns into, and `step` is what is left to do.
/// A use in a library class has no file to show.
pub open spec fn previews(
    before: PreviewPane,
    u: Option<LspUsage>,
    after: PreviewPane,
    step: PreviewStep,
) -> bool {
    preview::turns_to(
        before,
        match u {
            Some(h) => if "file://"@.is_prefix_of(h.uri@) {
                Some((h.path@, h.line as int))
            } else {
                None
            },
            None => None,
        },
        after,
        step,
    )
}

/// What a row shows as code: the line without its indentation, or the label where it is blank.
pub open spec fn code_of(u: LspUsage) -> Seq<char> {
    if text::all_white(u.text@) {
        u.label@
    } else {
        text::trimmed_start(u.text@)
    }
}

/// Whether use `i` is in the file and the line of `origin` and does not start behind it.
pub open spec fn before_origin(
    usages: Seq<LspUsage>,
    origin: (String, u32, u32),
    i: int,
) -> bool {
    &&& 0 <= i < usages.len()
    &&& "file://"@.is_prefix_of(usages[i].uri@)
    &&& path::same(usages[i].path@, origin.0@)
    &&& usages[i].line == origin.1
    &&& usages[i].character <= origin.2
}

/// Whether use `i` is the one at `origin`: of those in its line that do not start behind it, the
/// nearest.
pub open spec fn at_origin(usages: Seq<LspUsage>, origin: (String, u32, u32), i: int) -> bool {
    &&& before_origin(usages, origin, i)
    &&& forall|j: int| #[trigger]
        before_origin(usages, origin, j) ==> usages[j].character < usages[i].character || (
        usages[j].character == usages[i].character && i <= j)
}

/// Whether use `i` is the one to select first.
pub open spec fn is_first_choice(
    usages: Seq<LspUsage>,
    origin: Option<(String, u32, u32)>,
    i: int,
) -> bool {
    match origin {
        Some(o) => at_origin(usages, o, i) || (i == 0 && forall|j: int|
            !#[trigger] before_origin(usages, o, j)),
        None => i == 0,
    }
}

fn first_choice(usages: &Vec<LspUsage>, origin: &Option<(String, u32, u32)>) -> (r: usize)
    ensures
        is_first_choice(usages@, *origin, r as int),
        r < usages@.len() || r == 0,
{
    let o = match origin {
        Some(o) => o,
        None => {
            return 0;
        },
    };
    let mut best: Option<usize> = None;
    let mut i: usize = 0;
    while i < usages.len()
        invariant
            i <= usages@.len(),
            best is None ==> forall|j: int| j < i ==> !#[trigger] before_origin(usages@, *o, j),
            best matches Some(b) ==> {
                &&& b < i
                &&& before_origin(usages@, *o, b as int)
                &&& forall|j: int|
                    j < i && #[trigger] before_origin(usages@, *o, j) ==> usages@[j].character
                        < usages@[b as int].character || (usages@[j].character
                        == usages@[b as int].character && b <= j)
            },
        decreases usages@.len() - i,
    {
        let u = &usages[i];
        if u.line == o.1 && u.character <= o.2 && text::starts_with(u.uri.as_str(), "file://")
            && path::eq(u.path.as_str(), o.0.as_str()) {
            assert(before_origin(usages@, *o, i as int));
            let nearer = match best {
                Some(b) => usages[b].character < u.character,
                None => true,
            };
            if nearer {
                best = Some(i);
            }
        }
        i += 1;
    }
    match best {
        Some(b) => b,
        None => 0,
    }
}

impl UsagesView {
    /// The selection is one of the uses, and the preview is in order.
    pub open spec fn inv(self) -> bool {
        &&& self.selected < self.usages@.len() || self.selected == 0
        &&& self.preview.inv()
    }

    /// The selected use.
    pub open spec fn usage(self) -> Option<LspUsage> {
        if self.selected < self.usages@.len() {
            Some(self.usages@[self.selected as int])
        } else {
            None
        }
    }

    /// Whether the view, with `step` left to do, is a new one of the uses `usages` that came for the
    /// symbol in `symbol_file`, asked for at `origin`.
    pub open spec fn opens(
        self,
        symbol_file: String,
        usages: Vec<LspUsage>,
        origin: Option<(String, u32, u32)>,
        step: PreviewStep,
    ) -> bool {
        &&& self.inv()
        &&& self.symbol_file == symbol_file
        &&& self.usages == usages
        &&& is_first_choice(usages@, origin, self.selected as int)
        &&& previews((PreviewPane { doc: None, seq: 0 }), self.usage(), self.preview, step)
    }

    /// A view of `usages`, with the use at `origin` selected and previewed: the file, line and
    /// character of the cursor. Without an origin, or without a use there, the first use is selected.
    pub fn new(
        symbol_file: String,
        usages: Vec<LspUsage>,
        origin: Option<(String, u32, u32)>,
    ) -> (r: (Self, PreviewStep))
        ensures
            r.0.opens(symbol_file, usages, origin, r.1),
    {
        let selected = first_choice(&usages, &origin);
        let mut this = Self { symbol_file, usages, selected, preview: PreviewPane::new() };
        let step = this.load_preview();
        (this, step)
    }

    /// Shows the selected use in the preview.
    pub fn load_preview(&mut self) -> (step: PreviewStep)
        requires
            old(self).inv(),
            old(self).preview.seq < u64::MAX,
        ensures
            final(self).inv(),
            *final(self) == (Self { preview: final(self).preview, ..*old(self) }),
            previews(old(self).preview, old(self).usage(), final(self).preview, step),
    {
        if self.selected >= self.usages.len() {
            return self.preview.clear();
        }
        if !text::starts_with(self.usages[self.selected].uri.as_str(), "file://") {
            return self.preview.clear();
        }
        let path = self.usages[self.selected].path.clone();
        let line = self.usages[self.selected].line as usize;
        self.preview.show(path.as_str(), line)
    }

    /// Moves the selection by `delta` uses, around the ends.
    pub fn move_selection(&mut self, delta: i32) -> (step: Option<PreviewStep>)
        requires
            old(self).inv(),
            old(self).preview.seq < u64::MAX,
        ensures
            final(self).inv(),
            step is Some <==> old(self).usages@.len() > 0,
            step is None ==> *final(self) == *old(self),
            step matches Some(s) ==> {
                &&& *final(self) == (Self {
                    selected: final(self).selected,
                    preview: final(self).preview,
                    ..*old(self)
                })
                &&& final(self).selected == select::wrapped(
                    old(self).selected as int,
                    delta as int,
                    old(self).usages@.len() as int,
                )
                &&& previews(old(self).preview, final(self).usage(), final(self).preview, s)
            },
    {
        if self.usages.len() == 0 {
            return None;
        }
        self.selected = select::wrap(self.selected, delta, self.usages.len());
        Some(self.load_preview())
    }

    /// Opens the selected use, where there is one.
    pub fn confirm(&self) -> (r: Option<UsagesEvent>)
        ensures
            r is Some <==> self.usage() is Some,
            r matches Some(e) ==> e == (UsagesEvent::Open {
                uri: self.usage()->0.uri,
                line: self.usage()->0.line,
                character: self.usage()->0.character,
            }),
    {
        if self.selected < self.usages.len() {
            let u = &self.usages[self.selected];
            Some(UsagesEvent::Open { uri: u.uri.clone(), line: u.line, character: u.character })
        } else {
            None
        }
    }

    /// Selects row `ix` and opens its use.
    pub fn select_and_open(&mut self, ix: usize) -> (r: Option<UsagesEvent>)
        requires
            old(self).inv(),
            ix < old(self).usages@.len(),
        ensures
            final(self).inv(),
            *final(self) == (Self { selected: ix, ..*old(self) }),
            r == Some(
                UsagesEvent::Open {
                    uri: old(self).usages@[ix as int].uri,
                    line: old(self).usages@[ix as int].line,
                    character: old(self).usages@[ix as int].character,
                },
            ),
    {
        self.selected = ix;
        self.confirm()
    }

    /// The rows to draw.
    pub fn rows(&self) -> (rows: Vec<UsageRow>)
        ensures
            rows@.len() == self.usages@.len(),
            forall|i: int|
                0 <= i < rows@.len() ==> {
                    let u = self.usages@[i];
                    &&& (#[trigger] rows@[i]).code@ == code_of(u)
                    &&& rows@[i].place@ == u.label@ + " "@ + text::dec((u.line + 1) as nat)
                    &&& rows@[i].selected == (i == self.selected)
                },
    {
        let mut rows: Vec<UsageRow> = Vec::new();
        let mut i: usize = 0;
        while i < self.usages.len()
            invariant
                i <= self.usages@.len(),
                rows@.len() == i,
                forall|j: int|
                    0 <= j < i ==> {
                        let u = self.usages@[j];
                        &&& (#[trigger] rows@[j]).code@ == code_of(u)
                        &&& rows@[j].place@ == u.label@ + " "@ + text::dec((u.line + 1) as nat)
                        &&& rows@[j].selected == (j == self.selected)
                    },
            decreases self.usages@.len() - i,
        {
            let u = &self.usages[i];
            let code = if text::is_blank(u.text.as_str()) {
                u.label.clone()
            } else {
                text::trim_start(u.text.as_str())
            };
            let number = text::dec_u64(u.line as u64 + 1);
            rows.push(
                UsageRow {
                    code,
                    place: text::cat3(u.label.as_str(), " ", number.as_str()),
                    selected: i == self.selected,
                },
            );
            i += 1;
        }
        rows
    }

    /// The head of the view.
    pub fn title(&self) -> (r: String)
        ensures
            r@ == text::dec(self.usages@.len()) + " 处引用 — "@ + self.symbol_file@,
    {
        text::cat3(
            text::dec_usize(self.usages.len()).as_str(),
            " 处引用 — ",
            self.symbol_file.as_str(),
        )
    }
}

/// The usage under the cursor is selected first: the last one that begins in the cursor's line and
/// not after the cursor, of the file that the cursor is in. Without one it is the first of the list.
pub proof fn law_the_usage_under_the_cursor_is_selected(
    symbol_file: String,
    usages: Vec<LspUsage>,
    file: String,
    line: u32,
    character: u32,
    r: (UsagesView, PreviewStep),
    j: int,
)
    requires
        call_ensures(UsagesView::new, (symbol_file, usages, Some((file, line, character))), r),
        0 <= j < usages@.len(),
        "file://"@.is_prefix_of(usages@[j].uri@),
        path::same(usages@[j].path@, file@),
        usages@[j].line == line,
        usages@[j].character <= character,
    ensures
        r.0.selected < usages@.len(),
        ({
            let u = usages@[r.0.selected as int];
            &&& path::same(u.path@, file@)
            &&& u.line == line
            &&& usages@[j].character <= u.character <= character
        }),
{
    let o = (file, line, character);
    assert(before_origin(usages@, o, j));
    assert(at_origin(usages@, o, r.0.selected as int));
}

/// A row shows the line without its indent, or the place where there is no text, and tells the line
/// counted from 1.
pub proof fn law_rows_show_the_code(v: UsagesView, rows: Vec<UsageRow>, i: int)
    requires
        call_ensures(UsagesView::rows, (&v,), rows),
        0 <= i < rows@.len(),
    ensures
        rows@.len() == v.usages@.len(),
        text::all_white(v.usages@[i].text@) ==> rows@[i].code@ == v.usages@[i].label@,
        !text::all_white(v.usages@[i].text@) ==> rows@[i].code@.is_suffix_of(v.usages@[i].text@)
            && rows@[i].code@.len() > 0 && !text::is_white(rows@[i].code@[0]),
        rows@[i].place@ == v.usages@[i].label@ + " "@ + text::dec((v.usages@[i].line + 1) as nat),
        rows@[i].selected <==> i == v.selected,
{
    lemma_trimmed_suffix(v.usages@[i].text@);
}

proof fn lemma_trimmed_suffix(s: Seq<char>)
    ensures
        text::trimmed_start(s).is_suffix_of(s),
        !text::all_white(s) ==> text::trimmed_start(s).len() > 0 && !text::is_white(
            text::trimmed_start(s)[0],
        ),
    decreases s.len(),
{
    if s.len() > 0 && text::is_white(s[0]) {
        let t = s.drop_first();
        lemma_trimmed_suffix(t);
        if text::all_white(t) && !text::all_white(s) {
            let k = choose|k: int| 0 <= k < s.len() && !text::is_white(#[trigger] s[k]);
            assert(t[k - 1] == s[k]);
        }
    } else if s.len() > 0 {
        assert(!text::is_white(s[0]));
    }
}

/// The name of a file is what stands after the last slash of its address, without a query.
pub proof fn law_names_of_addresses(before: Seq<char>, name: Seq<char>, query: Seq<char>)
    requires
        !before.contains('?'),
        !name.contains('?'),
        !name.contains('/'),
    ensures
        name_part(before + seq!['/'] + name) == name,
        name_part(before + seq!['/'] + name + seq!['?'] + query) == name,
{
    let s = before + seq!['/'] + name;
    if s.contains('?') {
        let k = s.index_of('?');
        if k < before.len() {
            assert(before[k] == '?');
        } else if k > before.len() {
            assert(name[k - before.len() - 1] == '?');
        }
    }
    text::law_around_a_character(s, '?', query);
    text::law_around_a_character(before, '/', name);
}

/// Return opens the usage that is selected, at its line and column.
pub proof fn law_return_opens_the_selected_usage(v: UsagesView, r: Option<UsagesEvent>)
    requires
        v.inv(),
        call_ensures(UsagesView::confirm, (&v,), r),
    ensures
        r is None <==> v.usages@.len() == 0,
        r matches Some(UsagesEvent::Open { uri, line, character }) ==> {
            let u = v.usages@[v.selected as int];
            uri == u.uri && line == u.line && character == u.character
        },
{
}

/// The selection moves one row down, from the last row to the first, and the preview turns to the usage
/// that is then selected: at its line, where it lies in a file.
pub proof fn law_the_preview_follows_the_selection(v: &mut UsagesView, step: Option<PreviewStep>)
    requires
        old(v).inv(),
        old(v).preview.seq < u64::MAX,
        old(v).usages@.len() > 0,
        call_ensures(UsagesView::move_selection, (v, 1i32), step),
    ensures
        old(v).selected + 1 < old(v).usages@.len() ==> final(v).selected == old(v).selected + 1,
        old(v).selected + 1 == old(v).usages@.len() ==> final(v).selected == 0,
        step is Some,
        ({
            let u = final(v).usages@[final(v).selected as int];
            &&& !"file://"@.is_prefix_of(u.uri@) ==> step == Some(PreviewStep::Cleared) && final(v).preview.doc is None
            &&& "file://"@.is_prefix_of(u.uri@) ==> (step matches Some(
                PreviewStep::Read { seq, path, line },
            ) ==> path@ == u.path@ && line == u.line && seq == final(v).preview.seq)
            &&& "file://"@.is_prefix_of(u.uri@) ==> !(step->0 is Cleared)
            &&& step matches Some(PreviewStep::Scroll(line)) ==> old(v).preview.doc is Some && old(
                v,
            ).preview.doc->0.path@ == u.path@ && line <= u.line
        }),
        final(v).usages == old(v).usages,
{
    select::law_a_step_is_undone_by_the_opposite_one(
        old(v).selected as int,
        1,
        old(v).usages@.len() as int,
    );
}

} // verus!
