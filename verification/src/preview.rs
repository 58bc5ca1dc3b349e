//! A file shown below a result list: its content and where each line starts.
use std::sync::Arc;
use vstd::prelude::*;
use vstd::string::*;
use vstd::utf8::*;

use crate::text;

verus! {

/// A previewed file.
pub struct PreviewDoc {
    pub path: String,
    pub content: Arc<String>,
    /// Byte offset of each line.
    pub line_starts: Arc<Vec<usize>>,
    /// The line that the result is about, counted from 0.
    pub match_line: usize,
}

/// Byte offsets of the lines of `s` in its encoding: the start, and each place after a line feed.
pub open spec fn offsets(s: Seq<char>) -> Seq<int>
    decreases s.len(),
{
    if s.len() == 0 {
        seq![0]
    } else if s.last() == '\n' {
        offsets(s.drop_last()).push(encode_utf8(s).len() as int)
    } else {
        offsets(s.drop_last())
    }
}

/// `s` without the line feeds and carriage returns that it ends with.
pub open spec fn without_line_end(s: Seq<char>) -> Seq<char>
    decreases s.len(),
{
    if s.len() > 0 && (s.last() == '\n' || s.last() == '\r') {
        without_line_end(s.drop_last())
    } else {
        s
    }
}

/// Where line `i` ends: where the next one starts, or at the end of the `n` bytes.
pub open spec fn end_of_line(starts: Seq<usize>, i: int, n: int) -> int {
    if i + 1 < starts.len() {
        starts[i + 1] as int
    } else {
        n
    }
}

/// The numbers behind machine numbers.
pub open spec fn numbers(v: Seq<usize>) -> Seq<int> {
    v.map_values(|n: usize| n as int)
}

proof fn lemma_encode_push(s: Seq<char>, c: char)
    ensures
        encode_utf8(s.push(c)) == encode_utf8(s) + encode_scalar(c as u32),
    decreases s.len(),
{
    if s.len() == 0 {
        assert(s.push(c).drop_first() =~= Seq::<char>::empty());
        assert(s.push(c)[0] == c);
        assert(encode_utf8(s) =~= Seq::<u8>::empty());
        assert(encode_utf8(s.push(c).drop_first()) =~= Seq::<u8>::empty());
        assert(encode_utf8(s.push(c)) =~= encode_utf8(s) + encode_scalar(c as u32));
    } else {
        assert(s.push(c).drop_first() =~= s.drop_first().push(c));
        lemma_encode_push(s.drop_first(), c);
        assert(encode_utf8(s.push(c)) =~= encode_utf8(s) + encode_scalar(c as u32));
    }
}

proof fn lemma_encode_take(s: Seq<char>, k: int)
    requires
        0 <= k <= s.len(),
    ensures
        encode_utf8(s.take(k)).len() <= encode_utf8(s).len(),
    decreases s.len() - k,
{
    if k < s.len() {
        assert(s.take(k + 1) =~= s.take(k).push(s[k]));
        lemma_encode_push(s.take(k), s[k]);
        lemma_encode_take(s, k + 1);
    } else {
        assert(s.take(k) =~= s);
    }
}

/// An old boundary stays one when a character is appended, and the end becomes one.
proof fn lemma_boundary_push(s: Seq<char>, c: char, i: int)
    requires
        is_char_boundary(encode_utf8(s), i),
        0 <= i <= encode_utf8(s).len(),
    ensures
        is_char_boundary(encode_utf8(s.push(c)), i),
{
    let a = encode_utf8(s);
    let b = encode_utf8(s.push(c));
    let one = encode_utf8(seq![c]);
    lemma_encode_push(s, c);
    lemma_encode_push(Seq::empty(), c);
    assert(Seq::<char>::empty().push(c) =~= seq![c]);
    assert(one =~= encode_scalar(c as u32));
    encode_utf8_valid_utf8(s);
    encode_utf8_valid_utf8(s.push(c));
    encode_utf8_valid_utf8(seq![c]);
    is_char_boundary_start_end_of_seq(b);
    if i < a.len() {
        assert(b[i] == a[i]);
        is_char_boundary_iff_not_is_continuation_byte(a, i);
        is_char_boundary_iff_not_is_continuation_byte(b, i);
    } else if i < b.len() {
        assert(b[i] == one[0]);
        is_char_boundary_start_end_of_seq(one);
        is_char_boundary_iff_not_is_continuation_byte(one, 0);
        is_char_boundary_iff_not_is_continuation_byte(b, i);
    }
}

/// The line that starts at offset `i` of `s` with its line feed, where it has one.
pub open spec fn line_with_end(s: Seq<char>, i: int) -> Seq<char> {
    let pieces = text::split_on(s, '\n');
    if i + 1 < pieces.len() {
        pieces[i].push('\n')
    } else {
        pieces[i]
    }
}

/// Where line `i` of `s` ends.
pub open spec fn line_end(s: Seq<char>, i: int) -> int {
    if i + 1 < offsets(s).len() {
        offsets(s)[i + 1]
    } else {
        encode_utf8(s).len() as int
    }
}

/// The offsets cut the encoding into its lines, at the boundaries of characters.
pub proof fn lemma_offsets(s: Seq<char>)
    ensures
        offsets(s).len() == text::split_on(s, '\n').len(),
        offsets(s).len() >= 1,
        forall|i: int|
            0 <= i < offsets(s).len() ==> {
                &&& 0 <= #[trigger] offsets(s)[i] <= line_end(s, i) <= encode_utf8(s).len()
                &&& is_char_boundary(encode_utf8(s), offsets(s)[i])
                &&& encode_utf8(s).subrange(offsets(s)[i], line_end(s, i)) == encode_utf8(
                    line_with_end(s, i),
                )
            },
    decreases s.len(),
{
    let pieces = text::split_on(s, '\n');
    let bytes = encode_utf8(s);
    if s.len() == 0 {
        encode_utf8_valid_utf8(s);
        is_char_boundary_start_end_of_seq(bytes);
        assert(bytes.subrange(0, 0) =~= encode_utf8(pieces[0]));
    } else {
        let init = s.drop_last();
        let c = s.last();
        lemma_offsets(init);
        let before = offsets(init);
        let old_pieces = text::split_on(init, '\n');
        let old_bytes = encode_utf8(init);
        assert(s =~= init.push(c));
        lemma_encode_push(init, c);
        encode_utf8_valid_utf8(s);
        is_char_boundary_start_end_of_seq(bytes);
        let last = before.len() - 1;
        assert forall|i: int| 0 <= i < offsets(s).len() implies {
            &&& 0 <= #[trigger] offsets(s)[i] <= line_end(s, i) <= bytes.len()
            &&& is_char_boundary(bytes, offsets(s)[i])
            &&& bytes.subrange(offsets(s)[i], line_end(s, i)) == encode_utf8(line_with_end(s, i))
        } by {
            if i <= last {
                assert(offsets(s)[i] == before[i]);
                lemma_boundary_push(init, c, before[i]);
                let part = old_bytes.subrange(before[i], line_end(init, i));
                if i < last {
                    assert(line_end(s, i) == line_end(init, i));
                    assert(offsets(s)[i + 1] == before[i + 1]);
                    assert(bytes.subrange(offsets(s)[i], line_end(s, i)) =~= part);
                    assert(pieces[i] == old_pieces[i]);
                } else {
                    assert(line_end(s, i) == bytes.len());
                    assert(bytes.subrange(offsets(s)[i], line_end(s, i)) =~= part + encode_scalar(
                        c as u32,
                    ));
                    lemma_encode_push(old_pieces[i], c);
                    assert(line_with_end(s, i) =~= old_pieces[i].push(c));
                }
            } else {
                assert(c == '\n' && i == last + 1);
                assert(bytes.subrange(bytes.len() as int, bytes.len() as int) =~= encode_utf8(
                    pieces[i],
                ));
            }
        }
    }
}

/// How many bytes the encoding of `c` has.
fn utf8_len(c: char) -> (n: usize)
    ensures
        n == encode_scalar(c as u32).len(),
        1 <= n <= 4,
{
    let v = c as u32;
    if v <= 0x7f {
        1
    } else if v <= 0x7ff {
        2
    } else if v <= 0xffff {
        3
    } else {
        4
    }
}

impl PreviewDoc {
    /// The offsets are those of the content, and the line exists.
    pub open spec fn inv(self) -> bool {
        &&& numbers(self.line_starts@) == offsets(self.content@)
        &&& self.match_line < self.line_starts@.len()
    }

    /// A preview of `content`. A line beyond the end stands for the last line.
    pub fn new(path: String, content: String, match_line: usize) -> (doc: Self)
        ensures
            doc.inv(),
            doc.path == path,
            doc.content@ == content@,
            doc.match_line == (if match_line < doc.line_starts@.len() {
                match_line as int
            } else {
                doc.line_starts@.len() - 1
            }),
    {
        let mut starts: Vec<usize> = Vec::new();
        starts.push(0);
        let cs = text::chars_of(content.as_str());
        let total = content.as_str().as_bytes().len();
        let mut off: usize = 0;
        let mut i: usize = 0;
        assert(cs@.take(0) =~= Seq::<char>::empty());
        assert(numbers(starts@) =~= offsets(cs@.take(0)));
        while i < cs.len()
            invariant
                i <= cs@.len(),
                cs@ == content@,
                total == encode_utf8(content@).len(),
                off == encode_utf8(cs@.take(i as int)).len(),
                numbers(starts@) == offsets(cs@.take(i as int)),
                starts@.len() >= 1,
            decreases cs@.len() - i,
        {
            let c = cs[i];
            proof {
                assert(cs@.take(i + 1) =~= cs@.take(i as int).push(c));
                assert(cs@.take(i + 1).drop_last() =~= cs@.take(i as int));
                lemma_encode_push(cs@.take(i as int), c);
                lemma_encode_take(cs@, i + 1);
            }
            off += utf8_len(c);
            i += 1;
            if c == '\n' {
                let ghost prev = numbers(starts@);
                starts.push(off);
                assert(numbers(starts@) =~= prev.push(off as int));
            }
        }
        assert(cs@.take(cs@.len() as int) =~= cs@);
        let count = starts.len();
        let match_line = if match_line < count {
            match_line
        } else {
            count - 1
        };
        Self { path, content: Arc::new(content), line_starts: Arc::new(starts), match_line }
    }

    /// How many lines the preview has.
    pub fn line_count(&self) -> (n: usize)
        ensures
            n == self.line_starts@.len(),
    {
        self.line_starts.len()
    }

    /// Aims the preview at another line of the same file.
    pub fn aim(&mut self, match_line: usize)
        requires
            old(self).inv(),
        ensures
            final(self).inv(),
            *final(self) == (PreviewDoc { match_line: final(self).match_line, ..*old(self) }),
            final(self).match_line == (if match_line < old(self).line_starts@.len() {
                match_line as int
            } else {
                old(self).line_starts@.len() - 1
            }),
    {
        let count = self.line_starts.len();
        self.match_line = if match_line < count {
            match_line
        } else {
            count - 1
        };
    }

    /// Line `i` as it is drawn, with its number from 1.
    pub fn row(&self, i: usize) -> (r: PreviewRow)
        requires
            self.inv(),
            i < self.line_starts@.len(),
        ensures
            r.number@ == text::dec((i + 1) as nat),
            r.text@ == without_line_end(text::split_on(self.content@, '\n')[i as int]),
            r.hit == (i == self.match_line),
    {
        let count = self.line_starts.len();
        PreviewRow {
            number: text::dec_usize(i + 1),
            text: self.line(i),
            hit: i == self.match_line,
        }
    }

    /// The text of line `i`.
    pub fn line(&self, i: usize) -> (r: String)
        requires
            self.inv(),
            i < self.line_starts@.len(),
        ensures
            r@ == without_line_end(text::split_on(self.content@, '\n')[i as int]),
    {
        proof {
            law_lines_are_those_of_the_content(self.content@, self.line_starts@, i as int);
        }
        line_text(self.content.as_str(), self.line_starts.as_slice(), i)
    }
}

/// A drawn line of the preview.
pub struct PreviewRow {
    pub number: String,
    pub text: String,
    /// Whether this is the line that the result is about.
    pub hit: bool,
}

/// Line `i` of `content` by its offset and that of the next line, without what ends the line.
pub fn line_text(content: &str, line_starts: &[usize], i: usize) -> (r: String)
    requires
        i < line_starts@.len(),
        ({
            let bytes = encode_utf8(content@);
            let end = end_of_line(line_starts@, i as int, bytes.len() as int);
            &&& line_starts@[i as int] <= end
            &&& is_char_boundary(bytes, line_starts@[i as int] as int)
            &&& is_char_boundary(bytes, end)
            &&& end <= bytes.len()
        }),
    ensures
        r@ == without_line_end(
            decode_utf8(
                encode_utf8(content@).subrange(
                    line_starts@[i as int] as int,
                    end_of_line(line_starts@, i as int, encode_utf8(content@).len() as int),
                ),
            ),
        ),
{
    let ghost bytes = encode_utf8(content@);
    let start = line_starts[i];
    let end: usize = if i < line_starts.len() - 1 {
        line_starts[i + 1]
    } else {
        content.as_bytes().len()
    };
    proof {
        encode_utf8_valid_utf8(content@);
        valid_utf8_split(bytes, end as int);
    }
    let (head, _) = content.split_at(end);
    proof {
        let part = bytes.subrange(0, end as int);
        assert(encode_utf8(head@) =~= part);
        is_char_boundary_start_end_of_seq(part);
        if start < end {
            assert(part[start as int] == bytes[start as int]);
            is_char_boundary_iff_not_is_continuation_byte(part, start as int);
            is_char_boundary_iff_not_is_continuation_byte(bytes, start as int);
        }
    }
    let (_, line) = head.split_at(start);
    proof {
        assert(encode_utf8(line@) =~= bytes.subrange(start as int, end as int));
        encode_utf8_decode_utf8(line@);
    }
    let cs = text::chars_of(line);
    let mut n: usize = cs.len();
    assert(cs@.take(n as int) =~= cs@);
    while n > 0 && (cs[n - 1] == '\n' || cs[n - 1] == '\r')
        invariant
            n <= cs@.len(),
            without_line_end(cs@) == without_line_end(cs@.take(n as int)),
        decreases n,
    {
        assert(cs@.take(n as int).drop_last() =~= cs@.take(n - 1));
        n -= 1;
    }
    let r = text::string_of(&cs, 0, n);
    assert(r@ =~= cs@.take(n as int));
    r
}

/// The offsets of a content are good to cut it by, and what line `i` shows is the text between the
/// line feeds around it, without carriage returns at its end.
pub proof fn law_lines_are_those_of_the_content(content: Seq<char>, starts: Seq<usize>, i: int)
    requires
        numbers(starts) == offsets(content),
        0 <= i < starts.len(),
    ensures
        ({
            let bytes = encode_utf8(content);
            let end = end_of_line(starts, i, bytes.len() as int);
            &&& starts[i] <= end <= bytes.len()
            &&& is_char_boundary(bytes, starts[i] as int)
            &&& is_char_boundary(bytes, end)
            &&& without_line_end(decode_utf8(bytes.subrange(starts[i] as int, end)))
                == without_line_end(text::split_on(content, '\n')[i])
        }),
{
    lemma_offsets(content);
    let bytes = encode_utf8(content);
    let end = end_of_line(starts, i, bytes.len() as int);
    assert(numbers(starts)[i] == starts[i]);
    if i + 1 < starts.len() {
        assert(numbers(starts)[i + 1] == starts[i + 1]);
        assert(offsets(content)[i + 1] == end);
    }
    assert(offsets(content)[i] == starts[i]);
    assert(line_end(content, i) == end);
    encode_utf8_valid_utf8(content);
    is_char_boundary_start_end_of_seq(bytes);
    encode_utf8_decode_utf8(line_with_end(content, i));
    let piece = text::split_on(content, '\n')[i];
    if i + 1 < starts.len() {
        assert(piece.push('\n').drop_last() =~= piece);
    }
}

/// What became of a request to show a result in the preview.
pub enum PreviewStep {
    /// There is nothing to show.
    Cleared,
    /// The file is shown already: scroll to this line.
    Scroll(usize),
    /// Read the file and hand its content back with `seq`.
    Read { seq: u64, path: String, line: usize },
}

/// What the preview `before` turns into where `place`, a file and a line, is to be shown: where that
/// file is shown already only the line moves, else the file has to be read, and without a place
/// nothing is shown. Either way a read that was started before is out of date.
pub open spec fn turns_to(
    before: PreviewPane,
    place: Option<(Seq<char>, int)>,
    after: PreviewPane,
    step: PreviewStep,
) -> bool {
    &&& after.seq == before.seq + 1
    &&& match place {
        None => after.doc is None && step is Cleared,
        Some(p) => if before.doc is Some && before.doc->0.path@ == p.0 {
            let doc = after.doc->0;
            &&& after.doc is Some
            &&& doc == (PreviewDoc { match_line: doc.match_line, ..before.doc->0 })
            &&& doc.match_line == (if p.1 < doc.line_starts@.len() {
                p.1
            } else {
                doc.line_starts@.len() - 1
            })
            &&& step == PreviewStep::Scroll(doc.match_line)
        } else {
            &&& after.doc == before.doc
            &&& step is Read
            &&& step->seq == after.seq
            &&& step->path@ == p.0
            &&& step->line == p.1
        },
    }
}

/// Only what was to be shown last takes effect: a read that was started for an earlier place is
/// another one than the preview waits for.
pub proof fn law_only_the_last_place_takes_effect(
    before: PreviewPane,
    first: Option<(Seq<char>, int)>,
    between: PreviewPane,
    early: PreviewStep,
    second: Option<(Seq<char>, int)>,
    after: PreviewPane,
    late: PreviewStep,
)
    requires
        turns_to(before, first, between, early),
        turns_to(between, second, after, late),
    ensures
        early is Read ==> early->seq != after.seq,
        late is Read ==> late->seq == after.seq,
{
}

/// The preview below a result list.
pub struct PreviewPane {
    pub doc: Option<PreviewDoc>,
    /// How often something was to be shown: the number of the read that counts.
    pub seq: u64,
}

impl PreviewPane {
    /// The shown file is in order.
    pub open spec fn inv(self) -> bool {
        self.doc matches Some(d) ==> d.inv()
    }

    /// Nothing shown.
    pub fn new() -> (p: Self)
        ensures
            p.inv(),
            p.doc is None,
            p.seq == 0,
    {
        PreviewPane { doc: None, seq: 0 }
    }

    /// Shows nothing.
    pub fn clear(&mut self) -> (r: PreviewStep)
        requires
            old(self).seq < u64::MAX,
        ensures
            final(self).inv(),
            turns_to(*old(self), None, *final(self), r),
    {
        self.doc = None;
        self.seq = self.seq + 1;
        PreviewStep::Cleared
    }

    /// Shows `line` of the file `path`.
    pub fn show(&mut self, path: &str, line: usize) -> (r: PreviewStep)
        requires
            old(self).inv(),
            old(self).seq < u64::MAX,
        ensures
            final(self).inv(),
            turns_to(*old(self), Some((path@, line as int)), *final(self), r),
    {
        self.seq = self.seq + 1;
        if let Some(doc) = &mut self.doc {
            if text::str_eq(doc.path.as_str(), path) {
                doc.aim(line);
                return PreviewStep::Scroll(doc.match_line);
            }
        }
        PreviewStep::Read { seq: self.seq, path: path.to_owned(), line }
    }

    /// The read `seq` is done: shows the file, or nothing where it could not be read, unless
    /// something else was to be shown meanwhile.
    pub fn arrive(
        &mut self,
        seq: u64,
        path: String,
        line: usize,
        content: Option<String>,
    ) -> (applied: bool)
        requires
            old(self).inv(),
        ensures
            final(self).inv(),
            applied == (seq == old(self).seq),
            !applied ==> *final(self) == *old(self),
            final(self).seq == old(self).seq,
            applied ==> {
                &&& final(self).doc is Some <==> content is Some
                &&& content matches Some(c) ==> {
                    let doc = final(self).doc->0;
                    &&& doc.path == path
                    &&& doc.content@ == c@
                    &&& doc.match_line == (if line < doc.line_starts@.len() {
                        line as int
                    } else {
                        doc.line_starts@.len() - 1
                    })
                }
            },
    {
        if self.seq != seq {
            return false;
        }
        self.doc = match content {
            Some(c) => Some(PreviewDoc::new(path, c, line)),
            None => None,
        };
        true
    }
}

/// A row of the preview has the number of its line, counted from 1, and the text of the line; of a
/// content without carriage returns that is what stands between the line feeds.
pub proof fn law_rows_are_the_numbered_lines(doc: PreviewDoc, i: usize, r: PreviewRow)
    requires
        doc.inv(),
        i < doc.line_starts@.len(),
        call_ensures(PreviewDoc::row, (&doc, i), r),
    ensures
        text::value(r.number@) == i + 1,
        r.hit <==> i == doc.match_line,
        i < text::split_on(doc.content@, '\n').len(),
        !doc.content@.contains('\r') ==> r.text@ == text::split_on(doc.content@, '\n')[i as int],
        !r.text@.contains('\n'),
{
    text::law_decimals_read_back((i + 1) as nat);
    lemma_offsets(doc.content@);
    let pieces = text::split_on(doc.content@, '\n');
    assert(numbers(doc.line_starts@).len() == doc.line_starts@.len());
    let p = pieces[i as int];
    text::law_pieces_make_the_text(doc.content@, '\n');
    assert(!p.contains('\n'));
    lemma_line_end(p);
    if r.text@.contains('\n') {
        let k = r.text@.index_of('\n');
        assert(p[k] == '\n');
    }
    if !doc.content@.contains('\r') {
        lemma_pieces_hold_no_more(doc.content@, '\r', i as int);
        if without_line_end(p).len() < p.len() {
            let k = without_line_end(p).len() as int;
            assert(p[k] == '\n' || p[k] == '\r');
            assert(p.contains(p[k]));
        }
        assert(without_line_end(p) =~= p);
    }
}

proof fn lemma_line_end(s: Seq<char>)
    ensures
        without_line_end(s).is_prefix_of(s),
        forall|i: int|
            without_line_end(s).len() <= i < s.len() ==> #[trigger] s[i] == '\n' || s[i] == '\r',
    decreases s.len(),
{
    if s.len() > 0 && (s.last() == '\n' || s.last() == '\r') {
        lemma_line_end(s.drop_last());
        assert forall|i: int| without_line_end(s).len() <= i < s.len() implies #[trigger] s[i] == '\n'
            || s[i] == '\r' by {
            if i < s.len() - 1 {
                assert(s.drop_last()[i] == s[i]);
            }
        }
    }
}

proof fn lemma_pieces_hold_no_more(s: Seq<char>, d: char, i: int)
    requires
        !s.contains(d),
        0 <= i < text::split_on(s, '\n').len(),
    ensures
        !text::split_on(s, '\n')[i].contains(d),
    decreases s.len(),
{
    let all = text::split_on(s, '\n');
    if s.len() > 0 {
        let init = s.drop_last();
        let rest = text::split_on(init, '\n');
        text::lemma_split_nonempty(init, '\n');
        assert(s[s.len() - 1] != d);
        if init.contains(d) {
            let k = init.index_of(d);
            assert(s[k] == d);
        }
        if i < rest.len() {
            lemma_pieces_hold_no_more(init, d, i);
            if s.last() != '\n' && i == rest.len() - 1 {
                let p = rest.last().push(s.last());
                assert(all[i] == p);
                if p.contains(d) {
                    let k = p.index_of(d);
                    assert(rest.last()[k] == d);
                }
            }
        }
    }
}

/// A place beyond the end of a file is its last line.
pub proof fn law_a_place_is_a_line_of_the_file(path: String, content: String, line: usize, doc: PreviewDoc)
    requires
        call_ensures(PreviewDoc::new, (path, content, line), doc),
    ensures
        doc.match_line < text::split_on(content@, '\n').len(),
        line < text::split_on(content@, '\n').len() ==> doc.match_line == line,
        line >= text::split_on(content@, '\n').len() ==> doc.match_line == text::split_on(
            content@,
            '\n',
        ).len() - 1,
        doc.content@ == content@,
{
    lemma_offsets(content@);
    assert(numbers(doc.line_starts@).len() == doc.line_starts@.len());
}

/// A file that is shown is not read again: the pane goes to the line, or to the last one. Another file
/// is read, and until it comes the one before stays.
pub proof fn law_a_shown_file_is_not_read_again(
    p: &mut PreviewPane,
    path: &str,
    line: usize,
    r: PreviewStep,
)
    requires
        old(p).inv(),
        old(p).seq < u64::MAX,
        call_ensures(PreviewPane::show, (p, path, line), r),
    ensures
        old(p).doc is Some && old(p).doc->0.path@ == path@ ==> r is Scroll && final(p).doc is Some && (
        line < old(p).doc->0.line_starts@.len() ==> r == PreviewStep::Scroll(line) && final(p).doc->0.match_line == line),
        !(old(p).doc is Some && old(p).doc->0.path@ == path@) ==> final(p).doc == old(p).doc && (
        r matches PreviewStep::Read { seq, path: q, line: l } && q@ == path@ && l == line && seq
            > old(p).seq),
        final(p).seq > old(p).seq,
{
}

/// What arrives is shown at its line where it was asked for last, and is dropped where not.
pub proof fn law_what_was_asked_for_last_is_shown(
    p: &mut PreviewPane,
    seq: u64,
    path: String,
    line: usize,
    content: String,
    applied: bool,
)
    requires
        old(p).inv(),
        call_ensures(PreviewPane::arrive, (p, seq, path, line, Some(content)), applied),
    ensures
        seq != old(p).seq ==> *final(p) == *old(p),
        seq == old(p).seq ==> (final(p).doc matches Some(d) && d.path == path && d.content@ == content@
            && (line < d.line_starts@.len() ==> d.match_line == line) && (line
            >= d.line_starts@.len() ==> d.match_line + 1 == d.line_starts@.len())),
{
}

} // verus!
