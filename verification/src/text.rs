//! Character-level text operations, stated over sequences of characters.
use vstd::prelude::*;
use vstd::string::*;
use vstd::utf8::*;

verus! {

/// `String::push` appends one character at the end of the string.
pub assume_specification[ String::push ](s: &mut String, c: char)
    ensures
        final(s)@ == old(s)@.push(c),
;

/// A text in lower case.
pub uninterp spec fn lowercase(s: Seq<char>) -> Seq<char>;

/// Text of ASCII characters alone.
pub open spec fn is_ascii_text(s: Seq<char>) -> bool {
    forall|i: int| 0 <= i < s.len() ==> (#[trigger] s[i] as u32) < 0x80
}

/// A character with `A` to `Z` mapped to `a` to `z`.
pub open spec fn ascii_lower(c: char) -> char {
    if 'A' <= c && c <= 'Z' {
        ((c as u32) + 32) as char
    } else {
        c
    }
}

/// A text with `A` to `Z` mapped to `a` to `z`.
pub open spec fn ascii_lowered(s: Seq<char>) -> Seq<char> {
    Seq::new(s.len(), |i: int| ascii_lower(s[i]))
}

/// `str::to_lowercase`: the text with each character mapped to its Unicode lower case. In a text of
/// ASCII characters these are the letters `A` to `Z`, mapped to `a` to `z`. What the lower case is
/// of any other text is left to the name.
#[verifier::external_body]
pub(crate) fn to_lowercase(s: &str) -> (r: String)
    ensures
        r@ == lowercase(s@),
        is_ascii_text(s@) ==> r@ == ascii_lowered(s@),
{
    s.to_lowercase()
}

/// Characters with the Unicode `White_Space` property.
pub open spec fn is_white(c: char) -> bool {
    let n = c as u32;
    ||| 0x09 <= n <= 0x0d
    ||| n == 0x20
    ||| n == 0x85
    ||| n == 0xa0
    ||| n == 0x1680
    ||| 0x2000 <= n <= 0x200a
    ||| n == 0x2028
    ||| n == 0x2029
    ||| n == 0x202f
    ||| n == 0x205f
    ||| n == 0x3000
}

/// No character but white space.
pub open spec fn all_white(s: Seq<char>) -> bool {
    forall|i: int| 0 <= i < s.len() ==> is_white(#[trigger] s[i])
}

/// `s` without its leading white space.
pub open spec fn trimmed_start(s: Seq<char>) -> Seq<char>
    decreases s.len(),
{
    if s.len() > 0 && is_white(s[0]) {
        trimmed_start(s.drop_first())
    } else {
        s
    }
}

/// `s` without its trailing white space.
pub open spec fn trimmed_end(s: Seq<char>) -> Seq<char>
    decreases s.len(),
{
    if s.len() > 0 && is_white(s.last()) {
        trimmed_end(s.drop_last())
    } else {
        s
    }
}

/// `s` without white space at either end.
pub open spec fn trimmed(s: Seq<char>) -> Seq<char> {
    trimmed_end(trimmed_start(s))
}

/// `s` without the run of `c` that it starts with.
pub open spec fn without_leading(s: Seq<char>, c: char) -> Seq<char>
    decreases s.len(),
{
    if s.len() > 0 && s[0] == c {
        without_leading(s.drop_first(), c)
    } else {
        s
    }
}

/// `s` without the run of `c` that it ends with.
pub open spec fn without_trailing(s: Seq<char>, c: char) -> Seq<char>
    decreases s.len(),
{
    if s.len() > 0 && s.last() == c {
        without_trailing(s.drop_last(), c)
    } else {
        s
    }
}

/// The pieces of `s` between the occurrences of `c`; one piece more than there are occurrences.
pub open spec fn split_on(s: Seq<char>, c: char) -> Seq<Seq<char>>
    decreases s.len(),
{
    if s.len() == 0 {
        seq![Seq::<char>::empty()]
    } else {
        let rest = split_on(s.drop_last(), c);
        if s.last() == c {
            rest.push(Seq::<char>::empty())
        } else {
            rest.drop_last().push(rest.last().push(s.last()))
        }
    }
}

/// `s` without one carriage return at its end.
pub open spec fn without_cr(s: Seq<char>) -> Seq<char> {
    if s.len() > 0 && s.last() == '\r' {
        s.drop_last()
    } else {
        s
    }
}

/// The lines of `s`: each ends in a line feed, with or without a carriage return before it, which
/// is not part of the line; the last one may lack that ending.
pub open spec fn lines_of(s: Seq<char>) -> Seq<Seq<char>> {
    let pieces = split_on(s, '\n');
    let ended = pieces.drop_last().map_values(|p: Seq<char>| without_cr(p));
    if pieces.last().len() == 0 {
        ended
    } else {
        ended.push(pieces.last())
    }
}

/// The pieces put together again with `sep` between them.
pub open spec fn joined(parts: Seq<Seq<char>>, sep: Seq<char>) -> Seq<char>
    decreases parts.len(),
{
    if parts.len() == 0 {
        Seq::<char>::empty()
    } else if parts.len() == 1 {
        parts[0]
    } else {
        joined(parts.drop_last(), sep) + sep + parts.last()
    }
}

/// What precedes the first `c`, or all of `s`.
pub open spec fn before_first(s: Seq<char>, c: char) -> Seq<char> {
    if s.contains(c) {
        s.take(s.index_of_first(c)->0)
    } else {
        s
    }
}

/// `s` with each occurrence of `part`, from left to right and without overlap, replaced by `with`.
pub open spec fn replaced(s: Seq<char>, part: Seq<char>, with: Seq<char>) -> Seq<char>
    decreases s.len(),
{
    if part.len() == 0 || s.len() < part.len() {
        s
    } else if part.is_prefix_of(s) {
        with + replaced(s.skip(part.len() as int), part, with)
    } else {
        seq![s[0]] + replaced(s.drop_first(), part, with)
    }
}

/// Where the last `c` stands in `s`, or `-1`.
pub open spec fn last_index(s: Seq<char>, c: char) -> int
    decreases s.len(),
{
    if s.len() == 0 {
        -1
    } else if s.last() == c {
        s.len() - 1
    } else {
        last_index(s.drop_last(), c)
    }
}

/// What follows the last `c`, or all of `s`.
pub open spec fn after_last(s: Seq<char>, c: char) -> Seq<char> {
    s.skip(last_index(s, c) + 1)
}

/// Whether `part` stands somewhere in `s`.
pub open spec fn has_part(s: Seq<char>, part: Seq<char>) -> bool {
    exists|i: int| occurs_at(s, part, i)
}

/// Whether `part` stands in `s` at position `i`.
pub open spec fn occurs_at(s: Seq<char>, part: Seq<char>, i: int) -> bool {
    &&& 0 <= i
    &&& i + part.len() <= s.len()
    &&& s.subrange(i, i + part.len()) == part
}

/// `s` as it is without the prefix `root` and the slashes after it; all of `s` without that prefix.
pub open spec fn relative_to(root: Seq<char>, s: Seq<char>) -> Seq<char> {
    if root.is_prefix_of(s) {
        without_leading(s.skip(root.len() as int), '/')
    } else {
        s
    }
}

/// The character for a decimal digit.
pub open spec fn digit(d: nat) -> char {
    (('0' as u32) + d) as char
}

/// `n` in decimal notation.
pub open spec fn dec(n: nat) -> Seq<char>
    decreases n,
{
    if n < 10 {
        seq![digit(n)]
    } else {
        dec(n / 10).push(digit(n % 10))
    }
}

/// A signed number in decimal notation.
pub open spec fn dec_int(n: int) -> Seq<char> {
    if n < 0 {
        seq!['-'] + dec((-n) as nat)
    } else {
        dec(n as nat)
    }
}

/// The texts behind a sequence of strings.
pub open spec fn texts(v: Seq<String>) -> Seq<Seq<char>> {
    v.map_values(|s: String| s@)
}

/// The text behind an optional string.
pub open spec fn opt_text(s: Option<String>) -> Option<Seq<char>> {
    match s {
        Some(t) => Some(t@),
        None => None,
    }
}

/// Upper case for the letters `a` to `z`; every other character as it is.
pub open spec fn ascii_upper(c: char) -> char {
    if 'a' <= c <= 'z' {
        ((c as u32) - 32) as char
    } else {
        c
    }
}

/// Two texts with the same encoding are the same text.
pub proof fn lemma_encoding_injective(a: Seq<char>, b: Seq<char>)
    requires
        encode_utf8(a) == encode_utf8(b),
    ensures
        a == b,
{
    encode_utf8_decode_utf8(a);
    encode_utf8_decode_utf8(b);
}

/// Whether two texts are the same.
pub fn str_eq(a: &str, b: &str) -> (r: bool)
    ensures
        r == (a@ == b@),
{
    let x = a.as_bytes();
    let y = b.as_bytes();
    if x.len() != y.len() {
        return false;
    }
    let mut i: usize = 0;
    while i < x.len()
        invariant
            i <= x@.len(),
            x@.len() == y@.len(),
            x@ == encode_utf8(a@),
            y@ == encode_utf8(b@),
            forall|j: int| 0 <= j < i ==> x@[j] == y@[j],
        decreases x@.len() - i,
    {
        if x[i] != y[i] {
            return false;
        }
        i += 1;
    }
    proof {
        assert(x@ =~= y@);
        lemma_encoding_injective(a@, b@);
    }
    true
}

/// The characters of a text.
pub fn chars_of(s: &str) -> (r: Vec<char>)
    ensures
        r@ == s@,
{
    let mut out: Vec<char> = Vec::new();
    for c in it: s.chars()
        invariant
            it.seq() == s@,
            out@ == s@.take(it.index() as int),
    {
        out.push(c);
        assert(s@.take(it.index() + 1) =~= s@.take(it.index() as int).push(c));
    }
    assert(s@.take(s@.len() as int) =~= s@);
    out
}

/// The text made of the characters from position `from` up to position `to`.
pub fn string_of(cs: &Vec<char>, from: usize, to: usize) -> (r: String)
    requires
        from <= to <= cs@.len(),
    ensures
        r@ == cs@.subrange(from as int, to as int),
{
    let mut out = String::new();
    let mut i: usize = from;
    assert(out@ =~= cs@.subrange(from as int, from as int));
    while i < to
        invariant
            from <= i <= to <= cs@.len(),
            out@ == cs@.subrange(from as int, i as int),
        decreases to - i,
    {
        out.push(cs[i]);
        i += 1;
        assert(out@ =~= cs@.subrange(from as int, i as int));
    }
    out
}

/// Two texts one after the other.
pub fn cat2(a: &str, b: &str) -> (r: String)
    ensures
        r@ == a@ + b@,
{
    let mut s = String::new();
    s.append(a);
    s.append(b);
    assert(s@ =~= a@ + b@);
    s
}

/// Three texts one after the other.
pub fn cat3(a: &str, b: &str, c: &str) -> (r: String)
    ensures
        r@ == a@ + b@ + c@,
{
    let mut s = cat2(a, b);
    s.append(c);
    s
}

/// Four texts one after the other.
pub fn cat4(a: &str, b: &str, c: &str, d: &str) -> (r: String)
    ensures
        r@ == a@ + b@ + c@ + d@,
{
    let mut s = cat3(a, b, c);
    s.append(d);
    s
}

/// The decimal notation of `n`.
pub fn dec_u64(n: u64) -> (r: String)
    ensures
        r@ == dec(n as nat),
    decreases n,
{
    let d: u32 = (n % 10) as u32;
    let c: char = match d {
        0 => '0',
        1 => '1',
        2 => '2',
        3 => '3',
        4 => '4',
        5 => '5',
        6 => '6',
        7 => '7',
        8 => '8',
        _ => '9',
    };
    assert(c == digit((n % 10) as nat));
    let mut s = if n < 10 {
        String::new()
    } else {
        dec_u64(n / 10)
    };
    s.push(c);
    assert(s@ =~= dec(n as nat));
    s
}

/// The decimal notation of a size.
pub fn dec_usize(n: usize) -> (r: String)
    ensures
        r@ == dec(n as nat),
{
    dec_u64(n as u64)
}

/// The decimal notation of a signed number.
pub fn dec_i64(n: i64) -> (r: String)
    ensures
        r@ == dec_int(n as int),
{
    if n < 0 {
        let m: u64 = if n == i64::MIN {
            0x8000_0000_0000_0000u64
        } else {
            (-n) as u64
        };
        let s = dec_u64(m);
        let mut out = String::new();
        out.push('-');
        out.append(s.as_str());
        assert(out@ =~= seq!['-'] + dec((-(n as int)) as nat));
        out
    } else {
        dec_u64(n as u64)
    }
}

/// Whether `c` is white space.
pub fn white(c: char) -> (r: bool)
    ensures
        r == is_white(c),
{
    let n = c as u32;
    (0x09 <= n && n <= 0x0d) || n == 0x20 || n == 0x85 || n == 0xa0 || n == 0x1680 || (0x2000 <= n
        && n <= 0x200a) || n == 0x2028 || n == 0x2029 || n == 0x202f || n == 0x205f || n == 0x3000
}

/// Whether a text holds nothing but white space.
pub fn is_blank(s: &str) -> (r: bool)
    ensures
        r == all_white(s@),
{
    let cs = chars_of(s);
    let mut i: usize = 0;
    while i < cs.len()
        invariant
            i <= cs@.len(),
            cs@ == s@,
            forall|j: int| 0 <= j < i ==> is_white(#[trigger] s@[j]),
        decreases cs@.len() - i,
    {
        if !white(cs[i]) {
            assert(!is_white(s@[i as int]));
            return false;
        }
        i += 1;
    }
    true
}

/// How many leading characters `trimmed_start` takes away.
fn white_prefix(cs: &Vec<char>) -> (n: usize)
    ensures
        n <= cs@.len(),
        trimmed_start(cs@) == cs@.skip(n as int),
        forall|j: int| 0 <= j < n ==> is_white(#[trigger] cs@[j]),
        n < cs@.len() ==> !is_white(cs@[n as int]),
{
    let mut n: usize = 0;
    assert(cs@.skip(0) =~= cs@);
    while n < cs.len() && white(cs[n])
        invariant
            n <= cs@.len(),
            trimmed_start(cs@) == trimmed_start(cs@.skip(n as int)),
            forall|j: int| 0 <= j < n ==> is_white(#[trigger] cs@[j]),
        decreases cs@.len() - n,
    {
        assert(cs@.skip(n as int).drop_first() =~= cs@.skip(n + 1));
        n += 1;
    }
    n
}

/// Text without its leading white space.
pub fn trim_start(s: &str) -> (r: String)
    ensures
        r@ == trimmed_start(s@),
{
    let cs = chars_of(s);
    let n = white_prefix(&cs);
    let len = cs.len();
    let r = string_of(&cs, n, len);
    assert(r@ =~= s@.skip(n as int));
    r
}

/// Text without white space at either end.
pub fn trim(s: &str) -> (r: String)
    ensures
        r@ == trimmed(s@),
{
    let cs = chars_of(s);
    let n = white_prefix(&cs);
    let mut end: usize = cs.len();
    let ghost body = cs@.skip(n as int);
    assert(cs@.subrange(n as int, end as int) =~= body);
    while end > n && white(cs[end - 1])
        invariant
            n <= end <= cs@.len(),
            trimmed_end(body) == trimmed_end(cs@.subrange(n as int, end as int)),
        decreases end,
    {
        assert(cs@.subrange(n as int, end as int).drop_last() =~= cs@.subrange(
            n as int,
            end - 1,
        ));
        assert(cs@.subrange(n as int, end as int).last() == cs@[end - 1]);
        end -= 1;
    }
    assert(end > n ==> cs@.subrange(n as int, end as int).last() == cs@[end - 1]);
    string_of(&cs, n, end)
}

/// Trimming leaves nothing exactly of a text that is all white space.
pub proof fn lemma_trimmed_empty(s: Seq<char>)
    ensures
        trimmed(s).len() == 0 <==> all_white(s),
{
    lemma_trimmed_start(s);
    lemma_trimmed_end(trimmed_start(s));
}

proof fn lemma_trimmed_start(s: Seq<char>)
    ensures
        trimmed_start(s).len() <= s.len(),
        trimmed_start(s).len() == 0 <==> all_white(s),
        trimmed_start(s).len() > 0 ==> !is_white(trimmed_start(s)[0]),
    decreases s.len(),
{
    if s.len() > 0 && is_white(s[0]) {
        lemma_trimmed_start(s.drop_first());
        assert forall|i: int| all_white(s.drop_first()) && 0 <= i < s.len() implies is_white(
            #[trigger] s[i],
        ) by {
            if i > 0 {
                assert(s[i] == s.drop_first()[i - 1]);
            }
        }
        assert forall|i: int| all_white(s) && 0 <= i < s.drop_first().len() implies is_white(
            #[trigger] s.drop_first()[i],
        ) by {
            assert(s.drop_first()[i] == s[i + 1]);
        }
    } else if s.len() > 0 {
        assert(!is_white(s[0]));
    }
}

proof fn lemma_trimmed_end(s: Seq<char>)
    requires
        s.len() > 0 ==> !is_white(s[0]),
    ensures
        trimmed_end(s).len() == 0 <==> s.len() == 0,
    decreases s.len(),
{
    if s.len() > 0 && is_white(s.last()) {
        lemma_trimmed_end(s.drop_last());
    }
}

/// Whether a text starts with another.
pub fn starts_with(s: &str, prefix: &str) -> (r: bool)
    ensures
        r == prefix@.is_prefix_of(s@),
{
    let cs = chars_of(s);
    let ps = chars_of(prefix);
    match_at(&cs, &ps, 0)
}

/// Whether `part` stands in `cs` at `at`.
fn match_at(cs: &Vec<char>, part: &Vec<char>, at: usize) -> (r: bool)
    requires
        at <= cs@.len(),
    ensures
        r == occurs_at(cs@, part@, at as int),
        at == 0 ==> r == part@.is_prefix_of(cs@),
{
    let n = cs.len();
    if part.len() > n - at {
        return false;
    }
    let mut i: usize = 0;
    while i < part.len()
        invariant
            n == cs@.len(),
            i <= part@.len() <= n - at,
            forall|j: int| 0 <= j < i ==> part@[j] == cs@[at + j],
        decreases part@.len() - i,
    {
        if cs[at + i] != part[i] {
            assert(cs@.subrange(at as int, at + part@.len())[i as int] == cs@[at + i]);
            return false;
        }
        i += 1;
    }
    assert(cs@.subrange(at as int, at + part@.len()) =~= part@);
    true
}

/// A text with each occurrence of `part` replaced by `with`.
pub fn replace(s: &str, part: &str, with: &str) -> (r: String)
    requires
        part@.len() > 0,
    ensures
        r@ == replaced(s@, part@, with@),
{
    let cs = chars_of(s);
    let ps = chars_of(part);
    let n = cs.len();
    let m = ps.len();
    let mut out = String::new();
    let mut i: usize = 0;
    assert(cs@.skip(0) =~= cs@);
    assert(out@ + replaced(cs@.skip(0), ps@, with@) =~= replaced(s@, part@, with@));
    while i < n
        invariant
            i <= n,
            n == cs@.len(),
            m == ps@.len(),
            m > 0,
            cs@ == s@,
            ps@ == part@,
            out@ + replaced(cs@.skip(i as int), ps@, with@) == replaced(s@, part@, with@),
        decreases n - i,
    {
        let ghost rest = cs@.skip(i as int);
        let ghost sofar = out@;
        if m > n - i {
            out.push(cs[i]);
            assert(rest =~= seq![cs@[i as int]] + cs@.skip(i + 1));
            i += 1;
            assert(out@ + cs@.skip(i as int) =~= sofar + rest);
        } else if match_at(&cs, &ps, i) {
            assert(ps@.is_prefix_of(rest)) by {
                assert(rest.subrange(0, m as int) =~= cs@.subrange(i as int, i + m));
            }
            assert(rest.skip(m as int) =~= cs@.skip(i + m));
            out.append(with);
            i += m;
            assert(out@ + replaced(cs@.skip(i as int), ps@, with@) =~= sofar + (with@ + replaced(
                cs@.skip(i as int),
                ps@,
                with@,
            )));
        } else {
            assert(!ps@.is_prefix_of(rest)) by {
                assert(rest.subrange(0, m as int) =~= cs@.subrange(i as int, i + m));
            }
            assert(rest.drop_first() =~= cs@.skip(i + 1));
            out.push(cs[i]);
            i += 1;
            assert(out@ + replaced(cs@.skip(i as int), ps@, with@) =~= sofar + (seq![rest[0]]
                + replaced(cs@.skip(i as int), ps@, with@)));
        }
    }
    assert(out@ + replaced(cs@.skip(n as int), ps@, with@) =~= out@);
    out
}

/// `n` spaces.
pub fn spaces(n: usize) -> (r: String)
    ensures
        r@ == Seq::new(n as nat, |i: int| ' '),
{
    let mut s = String::new();
    let mut i: usize = 0;
    assert(s@ =~= Seq::new(0nat, |i: int| ' '));
    while i < n
        invariant
            i <= n,
            s@ == Seq::new(i as nat, |i: int| ' '),
        decreases n - i,
    {
        s.push(' ');
        i += 1;
        assert(s@ =~= Seq::new(i as nat, |i: int| ' '));
    }
    s
}

/// Whether a text ends with another.
pub fn ends_with(s: &str, suffix: &str) -> (r: bool)
    ensures
        r == suffix@.is_suffix_of(s@),
{
    let cs = chars_of(s);
    let ps = chars_of(suffix);
    if ps.len() > cs.len() {
        return false;
    }
    let at: usize = cs.len() - ps.len();
    match_at(&cs, &ps, at)
}

/// Whether `part` stands somewhere in `s`.
pub fn contains(s: &str, part: &str) -> (r: bool)
    ensures
        r == has_part(s@, part@),
{
    let cs = chars_of(s);
    let ps = chars_of(part);
    let mut i: usize = 0;
    while i < cs.len()
        invariant
            i <= cs@.len(),
            cs@ == s@,
            ps@ == part@,
            forall|j: int| 0 <= j < i ==> !occurs_at(s@, part@, j),
        decreases cs@.len() - i,
    {
        if match_at(&cs, &ps, i) {
            return true;
        }
        i += 1;
    }
    match_at(&cs, &ps, i)
}

/// What follows `prefix` in `s`, where `s` starts with it.
pub fn strip_prefix(s: &str, prefix: &str) -> (r: Option<String>)
    ensures
        r is Some <==> prefix@.is_prefix_of(s@),
        r matches Some(t) ==> t@ == s@.skip(prefix@.len() as int),
{
    let cs = chars_of(s);
    let ps = chars_of(prefix);
    if match_at(&cs, &ps, 0) {
        let n = ps.len();
        let len = cs.len();
        let t = string_of(&cs, n, len);
        assert(t@ =~= s@.skip(prefix@.len() as int));
        Some(t)
    } else {
        None
    }
}

/// Text without the run of `c` that it starts with.
pub fn trim_leading(s: &str, c: char) -> (r: String)
    ensures
        r@ == without_leading(s@, c),
{
    let cs = chars_of(s);
    let mut n: usize = 0;
    assert(cs@.skip(0) =~= cs@);
    while n < cs.len() && cs[n] == c
        invariant
            n <= cs@.len(),
            cs@ == s@,
            without_leading(s@, c) == without_leading(cs@.skip(n as int), c),
        decreases cs@.len() - n,
    {
        assert(cs@.skip(n as int).drop_first() =~= cs@.skip(n + 1));
        n += 1;
    }
    let len = cs.len();
    let r = string_of(&cs, n, len);
    assert(r@ =~= s@.skip(n as int));
    r
}

/// Text without the run of `c` that it ends with.
pub fn trim_trailing(s: &str, c: char) -> (r: String)
    ensures
        r@ == without_trailing(s@, c),
{
    let cs = chars_of(s);
    let mut end: usize = cs.len();
    assert(cs@.take(end as int) =~= cs@);
    while end > 0 && cs[end - 1] == c
        invariant
            end <= cs@.len(),
            cs@ == s@,
            without_trailing(s@, c) == without_trailing(cs@.take(end as int), c),
        decreases end,
    {
        assert(cs@.take(end as int).drop_last() =~= cs@.take(end - 1));
        end -= 1;
    }
    let r = string_of(&cs, 0, end);
    assert(r@ =~= s@.take(end as int));
    r
}

/// `abs` relative to `root`: without that prefix and the slashes after it, where it has the prefix.
pub fn rel_of(root: &str, abs: &str) -> (r: String)
    ensures
        r@ == relative_to(root@, abs@),
{
    match strip_prefix(abs, root) {
        Some(t) => trim_leading(t.as_str(), '/'),
        None => abs.to_owned(),
    }
}

/// What precedes the first `c`.
pub fn take_before(s: &str, c: char) -> (r: String)
    ensures
        r@ == before_first(s@, c),
{
    let cs = chars_of(s);
    let mut n: usize = 0;
    while n < cs.len() && cs[n] != c
        invariant
            n <= cs@.len(),
            cs@ == s@,
            forall|j: int| 0 <= j < n ==> s@[j] != c,
        decreases cs@.len() - n,
    {
        n += 1;
    }
    let r = string_of(&cs, 0, n);
    proof {
        if n < cs@.len() {
            assert(s@[n as int] == c);
            assert(s@.contains(c));
            s@.index_of_first_ensures(c);
            let k = s@.index_of_first(c)->0;
            assert(k == n);
            assert(r@ =~= s@.take(n as int));
        } else {
            assert(!s@.contains(c));
            assert(r@ =~= s@);
        }
    }
    r
}

/// Facts about `last_index`.
pub proof fn lemma_last_index(s: Seq<char>, c: char)
    ensures
        -1 <= last_index(s, c) < s.len(),
        last_index(s, c) >= 0 <==> s.contains(c),
        last_index(s, c) >= 0 ==> s[last_index(s, c)] == c,
        forall|j: int| last_index(s, c) < j < s.len() ==> s[j] != c,
    decreases s.len(),
{
    if s.len() > 0 && s.last() != c {
        lemma_last_index(s.drop_last(), c);
        if s.contains(c) {
            let k = choose|k: int| 0 <= k < s.len() && s[k] == c;
            assert(s.drop_last()[k] == c);
        }
        assert forall|j: int| last_index(s, c) < j < s.len() implies s[j] != c by {
            if j < s.len() - 1 {
                assert(s.drop_last()[j] != c);
            }
        }
        if last_index(s, c) >= 0 {
            assert(s[last_index(s, c)] == c);
        }
    } else if s.len() > 0 {
        assert(s[s.len() - 1] == c);
    }
}

/// Where the last `c` stands.
pub fn rfind(cs: &Vec<char>, c: char) -> (r: Option<usize>)
    ensures
        r matches Some(i) ==> i == last_index(cs@, c),
        r is None ==> last_index(cs@, c) == -1,
{
    let mut n: usize = cs.len();
    assert(cs@.take(n as int) =~= cs@);
    while n > 0
        invariant
            n <= cs@.len(),
            last_index(cs@, c) == last_index(cs@.take(n as int), c),
        decreases n,
    {
        if cs[n - 1] == c {
            return Some(n - 1);
        }
        assert(cs@.take(n as int).drop_last() =~= cs@.take(n - 1));
        n -= 1;
    }
    None
}

/// What follows the last `c`.
pub fn take_after_last(s: &str, c: char) -> (r: String)
    ensures
        r@ == after_last(s@, c),
{
    let cs = chars_of(s);
    let len = cs.len();
    proof {
        lemma_last_index(s@, c);
    }
    let from: usize = match rfind(&cs, c) {
        Some(i) => i + 1,
        None => 0,
    };
    let r = string_of(&cs, from, len);
    assert(r@ =~= s@.skip(from as int));
    r
}

/// The text before and after the last `c`.
pub fn rsplit_once(s: &str, c: char) -> (r: Option<(String, String)>)
    ensures
        r is Some <==> s@.contains(c),
        r matches Some(p) ==> p.0@ == s@.take(last_index(s@, c)) && p.1@ == after_last(s@, c),
{
    let cs = chars_of(s);
    proof {
        lemma_last_index(s@, c);
    }
    let len = cs.len();
    match rfind(&cs, c) {
        Some(i) => {
            let a = string_of(&cs, 0, i);
            let b = string_of(&cs, i + 1, len);
            assert(a@ =~= s@.take(i as int));
            assert(b@ =~= s@.skip(i + 1));
            Some((a, b))
        },
        None => None,
    }
}

/// A split has at least one piece.
pub proof fn lemma_split_nonempty(s: Seq<char>, c: char)
    ensures
        split_on(s, c).len() >= 1,
    decreases s.len(),
{
    if s.len() > 0 {
        lemma_split_nonempty(s.drop_last(), c);
    }
}

/// The pieces of a text between the occurrences of `c`.
pub fn split(s: &str, c: char) -> (r: Vec<String>)
    ensures
        texts(r@) == split_on(s@, c),
        r@.len() >= 1,
{
    let cs = chars_of(s);
    let mut out: Vec<String> = Vec::new();
    let mut cur = String::new();
    let mut i: usize = 0;
    assert(cs@.take(0) =~= Seq::<char>::empty());
    assert(texts(out@).push(cur@) =~= split_on(cs@.take(0), c));
    while i < cs.len()
        invariant
            i <= cs@.len(),
            cs@ == s@,
            texts(out@).push(cur@) == split_on(cs@.take(i as int), c),
        decreases cs@.len() - i,
    {
        let ghost before = split_on(cs@.take(i as int), c);
        let ghost prev = texts(out@);
        assert(cs@.take(i + 1).drop_last() =~= cs@.take(i as int));
        assert(cs@.take(i + 1).last() == cs@[i as int]);
        assert(before.drop_last() =~= prev);
        let ch = cs[i];
        if ch == c {
            let ghost piece = cur@;
            out.push(cur);
            assert(texts(out@) =~= prev.push(piece));
            cur = String::new();
        } else {
            cur.push(ch);
        }
        i += 1;
        assert(texts(out@).push(cur@) =~= split_on(cs@.take(i as int), c));
    }
    assert(cs@.take(cs@.len() as int) =~= cs@);
    let ghost prev = texts(out@);
    let ghost piece = cur@;
    out.push(cur);
    assert(texts(out@) =~= prev.push(piece));
    out
}

/// The pieces put together with `sep` between them.
pub fn join(parts: &Vec<String>, sep: &str) -> (r: String)
    ensures
        r@ == joined(texts(parts@), sep@),
{
    let mut out = String::new();
    let mut i: usize = 0;
    let ghost all = texts(parts@);
    while i < parts.len()
        invariant
            i <= parts@.len(),
            all == texts(parts@),
            out@ == joined(all.take(i as int), sep@),
        decreases parts@.len() - i,
    {
        assert(all.take(i + 1).drop_last() =~= all.take(i as int));
        assert(all.take(i + 1).last() == parts@[i as int]@);
        if i > 0 {
            out.append(sep);
        }
        out.append(parts[i].as_str());
        i += 1;
        assert(out@ =~= joined(all.take(i as int), sep@));
    }
    assert(all.take(all.len() as int) =~= all);
    out
}

/// The pieces of a split, put together again, give the text back.
pub proof fn lemma_split_joined(s: Seq<char>, c: char)
    ensures
        joined(split_on(s, c), seq![c]) == s,
    decreases s.len(),
{
    let all = split_on(s, c);
    if s.len() == 0 {
        assert(all[0] =~= s);
    } else {
        let init = s.drop_last();
        let rest = split_on(init, c);
        lemma_split_joined(init, c);
        lemma_split_nonempty(init, c);
        if s.last() == c {
            assert(all.drop_last() =~= rest);
            assert(joined(all, seq![c]) =~= init + seq![c]);
            assert(s =~= init.push(c));
        } else {
            assert(all.drop_last() =~= rest.drop_last());
            assert(joined(all, seq![c]) =~= joined(rest, seq![c]).push(s.last()));
            assert(s =~= init.push(s.last()));
        }
    }
}

/// The lines of a text.
pub fn lines(s: &str) -> (r: Vec<String>)
    ensures
        texts(r@) == lines_of(s@),
{
    let pieces = split(s, '\n');
    let ghost all = split_on(s@, '\n');
    let last: usize = pieces.len() - 1;
    let mut out: Vec<String> = Vec::new();
    let mut i: usize = 0;
    let ghost ended = all.drop_last().map_values(|p: Seq<char>| without_cr(p));
    while i < last
        invariant
            i <= last,
            last + 1 == pieces@.len(),
            texts(pieces@) == all,
            ended == all.drop_last().map_values(|p: Seq<char>| without_cr(p)),
            texts(out@) == ended.take(i as int),
        decreases last - i,
    {
        assert(all[i as int] == pieces@[i as int]@);
        let cs = chars_of(pieces[i].as_str());
        let n = cs.len();
        let ghost prev = texts(out@);
        if n > 0 && cs[n - 1] == '\r' {
            let t = string_of(&cs, 0, n - 1);
            assert(t@ =~= without_cr(all[i as int]));
            out.push(t);
        } else {
            let t = string_of(&cs, 0, n);
            assert(t@ =~= without_cr(all[i as int]));
            out.push(t);
        }
        assert(texts(out@) =~= prev.push(ended[i as int]));
        i += 1;
        assert(texts(out@) =~= ended.take(i as int));
    }
    assert(ended.take(last as int) =~= ended);
    assert(all.last() == pieces@[last as int]@);
    let cs = chars_of(pieces[last].as_str());
    if cs.len() > 0 {
        let ghost prev = texts(out@);
        out.push(pieces[last].clone());
        assert(texts(out@) =~= prev.push(all.last()));
    }
    out
}

/// A copy of a list of strings.
pub fn copy_strings(v: &Vec<String>) -> (r: Vec<String>)
    ensures
        r@ == v@,
{
    let mut out: Vec<String> = Vec::new();
    let mut i: usize = 0;
    while i < v.len()
        invariant
            i <= v@.len(),
            out@ == v@.take(i as int),
        decreases v@.len() - i,
    {
        out.push(v[i].clone());
        i += 1;
        assert(out@ =~= v@.take(i as int));
    }
    assert(v@.take(v@.len() as int) =~= v@);
    out
}

/// A copy of an optional string.
pub fn copy_opt(s: &Option<String>) -> (r: Option<String>)
    ensures
        r == *s,
{
    match s {
        Some(t) => Some(t.clone()),
        None => None,
    }
}

/// Whether a text stands in a list.
pub fn list_has(v: &Vec<String>, s: &str) -> (r: bool)
    ensures
        r == texts(v@).contains(s@),
{
    let mut i: usize = 0;
    while i < v.len()
        invariant
            i <= v@.len(),
            forall|j: int| 0 <= j < i ==> texts(v@)[j] != s@,
        decreases v@.len() - i,
    {
        if str_eq(v[i].as_str(), s) {
            assert(texts(v@)[i as int] == s@);
            return true;
        }
        i += 1;
    }
    false
}

/// The first character of a text.
pub fn first_char(s: &str) -> (r: Option<char>)
    ensures
        s@.len() == 0 ==> r is None,
        s@.len() > 0 ==> r == Some(s@[0]),
{
    let cs = chars_of(s);
    if cs.len() == 0 {
        None
    } else {
        Some(cs[0])
    }
}

/// Upper case for the letters `a` to `z`.
pub fn upper(c: char) -> (r: char)
    ensures
        r == ascii_upper(c),
{
    if 'a' <= c && c <= 'z' {
        let n: u8 = c as u8;
        (n - 32) as char
    } else {
        c
    }
}

/// The number that decimal digits stand for.
pub open spec fn value(digits: Seq<char>) -> int
    decreases digits.len(),
{
    if digits.len() == 0 {
        0
    } else {
        10 * value(digits.drop_last()) + (digits.last() as int - '0' as int)
    }
}

/// A number in decimal notation reads back as the number: it is made of digits, and only the notation
/// of zero begins with a zero.
pub proof fn law_decimals_read_back(n: nat)
    ensures
        value(dec(n)) == n,
        dec(n).len() > 0,
        forall|i: int| 0 <= i < dec(n).len() ==> '0' <= #[trigger] dec(n)[i] <= '9',
        dec(n)[0] == '0' ==> n == 0,
    decreases n,
{
    if n < 10 {
        assert(dec(n).drop_last() =~= Seq::<char>::empty());
        assert(value(dec(n).drop_last()) == 0);
    } else {
        law_decimals_read_back(n / 10);
        assert(dec(n).drop_last() =~= dec(n / 10));
    }
}

/// Different numbers have different notations.
pub proof fn law_decimals_differ(m: nat, n: nat)
    requires
        dec(m) == dec(n),
    ensures
        m == n,
{
    law_decimals_read_back(m);
    law_decimals_read_back(n);
}

/// A negative number has a minus sign before the notation of its opposite, another one none.
pub proof fn law_signed_decimals_read_back(n: int)
    ensures
        n < 0 ==> dec_int(n).len() > 1 && dec_int(n)[0] == '-' && value(dec_int(n).skip(1)) == -n,
        n >= 0 ==> dec_int(n).len() > 0 && '0' <= dec_int(n)[0] <= '9' && value(dec_int(n)) == n,
{
    if n < 0 {
        law_decimals_read_back((-n) as nat);
        assert(dec_int(n).skip(1) =~= dec((-n) as nat));
    } else {
        law_decimals_read_back(n as nat);
    }
}

proof fn lemma_split_one(s: Seq<char>, c: char)
    requires
        !s.contains(c),
    ensures
        split_on(s, c) == seq![s],
    decreases s.len(),
{
    if s.len() > 0 {
        let t = s.drop_last();
        assert(!t.contains(c)) by {
            if t.contains(c) {
                let i = t.index_of(c);
                assert(s[i] == c);
            }
        }
        lemma_split_one(t, c);
        assert(s[s.len() - 1] == s.last());
        assert(t.push(s.last()) =~= s);
        assert(seq![t].drop_last().push(seq![t].last().push(s.last())) =~= seq![s]);
    } else {
        assert(s =~= Seq::<char>::empty());
    }
}

/// A text is split where the character stands: the pieces before and after any one of its places are
/// those of the text before and of the text after it, and a text without it is one piece.
pub proof fn law_split_where_it_stands(a: Seq<char>, c: char, b: Seq<char>)
    ensures
        split_on(a + seq![c] + b, c) == split_on(a, c) + split_on(b, c),
        !a.contains(c) ==> split_on(a, c) == seq![a],
    decreases b.len(),
{
    if !a.contains(c) {
        lemma_split_one(a, c);
    }
    let pa = split_on(a, c);
    let s = a + seq![c] + b;
    if b.len() == 0 {
        assert(s =~= a.push(c));
        assert(s.drop_last() =~= a);
        assert(pa.push(Seq::<char>::empty()) =~= pa + seq![Seq::<char>::empty()]);
    } else {
        let d = b.drop_last();
        assert(s.drop_last() =~= a + seq![c] + d);
        assert(s.last() == b.last());
        law_split_where_it_stands(a, c, d);
        lemma_split_nonempty(d, c);
        let pd = split_on(d, c);
        let rest = pa + pd;
        if b.last() == c {
            assert(rest.push(Seq::<char>::empty()) =~= pa + pd.push(Seq::<char>::empty()));
        } else {
            assert(rest.last() == pd.last());
            assert(rest.drop_last().push(rest.last().push(b.last())) =~= pa + pd.drop_last().push(
                pd.last().push(b.last()),
            ));
        }
    }
}

/// No piece of a split holds the character, and the pieces with it between them are the text.
pub proof fn law_pieces_make_the_text(s: Seq<char>, c: char)
    ensures
        joined(split_on(s, c), seq![c]) == s,
        forall|i: int| 0 <= i < split_on(s, c).len() ==> !(#[trigger] split_on(s, c)[i]).contains(c),
    decreases s.len(),
{
    lemma_split_joined(s, c);
    let all = split_on(s, c);
    if s.len() > 0 {
        let rest = split_on(s.drop_last(), c);
        lemma_split_nonempty(s.drop_last(), c);
        law_pieces_make_the_text(s.drop_last(), c);
        assert forall|i: int| 0 <= i < all.len() implies !(#[trigger] all[i]).contains(c) by {
            if i < rest.len() - 1 || s.last() == c {
                if i < rest.len() {
                    assert(all[i] == rest[i]);
                }
            } else {
                assert(!rest.last().contains(c));
                let p = rest.last().push(s.last());
                assert(all[i] == p);
                if p.contains(c) {
                    let k = p.index_of(c);
                    assert(rest.last()[k] == c);
                }
            }
        }
    }
}

/// Pieces are put together with the separator between any two neighbours and nowhere else.
pub proof fn law_joining_in_parts(a: Seq<Seq<char>>, b: Seq<Seq<char>>, sep: Seq<char>)
    requires
        a.len() > 0,
        b.len() > 0,
    ensures
        joined(a + b, sep) == joined(a, sep) + sep + joined(b, sep),
        a.len() == 1 ==> joined(a, sep) == a[0],
    decreases b.len(),
{
    let d = b.drop_last();
    assert((a + b).drop_last() =~= a + d);
    assert((a + b).last() == b.last());
    if b.len() == 1 {
        assert(a + d =~= a);
    } else {
        law_joining_in_parts(a, d, sep);
        assert(joined(a + b, sep) =~= joined(a, sep) + sep + joined(b, sep));
    }
}

proof fn lemma_trimmed_start_parts(s: Seq<char>) -> (head: Seq<char>)
    ensures
        all_white(head),
        s == head + trimmed_start(s),
        trimmed_start(s).len() > 0 ==> !is_white(trimmed_start(s)[0]),
    decreases s.len(),
{
    if s.len() > 0 && is_white(s[0]) {
        let rest = lemma_trimmed_start_parts(s.drop_first());
        let head = seq![s[0]] + rest;
        assert(s.drop_first() =~= rest + trimmed_start(s));
        assert(s =~= seq![s[0]] + s.drop_first());
        assert(s =~= head + trimmed_start(s));
        head
    } else {
        assert(s =~= Seq::<char>::empty() + s);
        Seq::empty()
    }
}

proof fn lemma_trimmed_end_parts(s: Seq<char>) -> (tail: Seq<char>)
    ensures
        all_white(tail),
        s == trimmed_end(s) + tail,
        trimmed_end(s).len() > 0 ==> !is_white(trimmed_end(s).last()),
    decreases s.len(),
{
    if s.len() > 0 && is_white(s.last()) {
        let rest = lemma_trimmed_end_parts(s.drop_last());
        let tail = rest.push(s.last());
        assert(s.drop_last() =~= trimmed_end(s) + rest);
        assert(s =~= s.drop_last().push(s.last()));
        assert(s =~= trimmed_end(s) + tail);
        tail
    } else {
        assert(s =~= s + Seq::<char>::empty());
        Seq::empty()
    }
}

/// Trimming takes white space away from the two ends, all of it there, and nothing else.
pub proof fn law_trimming_takes_white_space(s: Seq<char>)
    ensures
        exists|head: Seq<char>, tail: Seq<char>|
            #![trigger all_white(head), all_white(tail)]
            all_white(head) && all_white(tail) && s == head + trimmed(s) + tail,
        trimmed(s).len() > 0 ==> !is_white(trimmed(s)[0]) && !is_white(trimmed(s).last()),
{
    let head = lemma_trimmed_start_parts(s);
    let mid = trimmed_start(s);
    let tail = lemma_trimmed_end_parts(mid);
    assert(s =~= head + trimmed(s) + tail);
    assert(all_white(head) && all_white(tail));
    if trimmed(s).len() > 0 {
        assert(mid[0] == trimmed(s)[0]);
    }
}

/// What is left without trailing `c` does not end in `c`, and only that character was taken away.
pub proof fn law_trailing_characters_go(s: Seq<char>, c: char)
    ensures
        without_trailing(s, c).is_prefix_of(s),
        forall|i: int| without_trailing(s, c).len() <= i < s.len() ==> #[trigger] s[i] == c,
        without_trailing(s, c).len() > 0 ==> without_trailing(s, c).last() != c,
    decreases s.len(),
{
    if s.len() > 0 && s.last() == c {
        law_trailing_characters_go(s.drop_last(), c);
        assert forall|i: int| without_trailing(s, c).len() <= i < s.len() implies #[trigger] s[i]
            == c by {
            if i < s.len() - 1 {
                assert(s.drop_last()[i] == c);
            }
        }
    }
}

/// What is left without leading `c` does not begin with `c`, and only that character was taken away.
pub proof fn law_leading_characters_go(s: Seq<char>, c: char)
    ensures
        without_leading(s, c).is_suffix_of(s),
        forall|i: int| 0 <= i < s.len() - without_leading(s, c).len() ==> #[trigger] s[i] == c,
        without_leading(s, c).len() > 0 ==> without_leading(s, c)[0] != c,
    decreases s.len(),
{
    if s.len() > 0 && s[0] == c {
        law_leading_characters_go(s.drop_first(), c);
        assert forall|i: int| 0 <= i < s.len() - without_leading(s, c).len() implies #[trigger] s[i]
            == c by {
            if i > 0 {
                assert(s.drop_first()[i - 1] == c);
            }
        }
    }
}

/// A text holds a part exactly where it is that part with something, or nothing, before and after it.
pub proof fn law_parts_are_surrounded(s: Seq<char>, part: Seq<char>)
    ensures
        has_part(s, part) <==> exists|a: Seq<char>, b: Seq<char>| s == #[trigger] (a + part + b),
{
    if has_part(s, part) {
        let i = choose|i: int| occurs_at(s, part, i);
        let a = s.take(i);
        let b = s.skip(i + part.len());
        assert(s =~= a + part + b);
    }
    if exists|a: Seq<char>, b: Seq<char>| s == #[trigger] (a + part + b) {
        let (a, b) = choose|a: Seq<char>, b: Seq<char>| s == #[trigger] (a + part + b);
        assert(s.subrange(a.len() as int, a.len() as int + part.len()) =~= part);
        assert(occurs_at(s, part, a.len() as int));
    }
}

/// What stands below a root is told without the root and the slash after it; another path is told
/// whole.
pub proof fn law_relative_below_the_root(root: Seq<char>, below: Seq<char>, other: Seq<char>)
    requires
        below.len() > 0 ==> below[0] != '/',
        !root.is_prefix_of(other),
    ensures
        relative_to(root, root + seq!['/'] + below) == below,
        relative_to(root, other) == other,
{
    let s = root + seq!['/'] + below;
    let t = s.skip(root.len() as int);
    assert(s.subrange(0, root.len() as int) =~= root);
    assert(t =~= seq!['/'] + below);
    assert(t.drop_first() =~= below);
    law_leading_characters_go(below, '/');
    assert(without_leading(below, '/') =~= below);
}

/// What follows the last `c` of a text holds none, and what precedes the first holds none either.
pub proof fn law_around_a_character(a: Seq<char>, c: char, b: Seq<char>)
    ensures
        !b.contains(c) ==> after_last(a + seq![c] + b, c) == b && after_last(b, c) == b,
        !a.contains(c) ==> before_first(a + seq![c] + b, c) == a && before_first(a, c) == a,
{
    let s = a + seq![c] + b;
    assert(s[a.len() as int] == c);
    if !b.contains(c) {
        lemma_last_index(s, c);
        lemma_last_index(b, c);
        assert(s.contains(c));
        if last_index(s, c) > a.len() {
            assert(b[last_index(s, c) - a.len() - 1] == c);
        }
        assert(last_index(s, c) == a.len());
        assert(after_last(s, c) =~= b);
        assert(after_last(b, c) =~= b);
    }
    if !a.contains(c) {
        assert(s.contains(c));
        s.index_of_first_ensures(c);
        let k = s.index_of_first(c)->0;
        if k < a.len() {
            assert(a[k] == c);
        }
        assert(before_first(s, c) =~= a);
    }
}

/// Pieces that do not hold a character come back from the text that they make with it between them.
pub proof fn law_joined_pieces_come_back(parts: Seq<Seq<char>>, c: char)
    requires
        parts.len() > 0,
        forall|i: int| 0 <= i < parts.len() ==> !(#[trigger] parts[i]).contains(c),
    ensures
        split_on(joined(parts, seq![c]), c) == parts,
    decreases parts.len(),
{
    lemma_split_one(parts.last(), c);
    if parts.len() == 1 {
        assert(seq![parts.last()] =~= parts);
    } else {
        let init = parts.drop_last();
        assert forall|i: int| 0 <= i < init.len() implies !(#[trigger] init[i]).contains(c) by {
            assert(init[i] == parts[i]);
        }
        law_joined_pieces_come_back(init, c);
        law_split_where_it_stands(joined(init, seq![c]), c, parts.last());
        assert(init + seq![parts.last()] =~= parts);
    }
}

/// Replacing goes from left to right: what stands where a part begins is replaced and the rest is
/// looked at after it; a text that does not hold the part stays as it is.
pub proof fn law_replacing_goes_on_after_the_part(s: Seq<char>, part: Seq<char>, with: Seq<char>)
    requires
        part.len() > 0,
    ensures
        replaced(part + s, part, with) == with + replaced(s, part, with),
        !has_part(s, part) ==> replaced(s, part, with) == s,
    decreases s.len(),
{
    let all = part + s;
    assert(all.skip(part.len() as int) =~= s);
    assert(all.take(part.len() as int) =~= part);
    assert(part.is_prefix_of(all));
    if !has_part(s, part) && s.len() >= part.len() {
        if part.is_prefix_of(s) {
            assert(s.subrange(0, part.len() as int) =~= part);
            assert(occurs_at(s, part, 0));
        }
        let rest = s.drop_first();
        if has_part(rest, part) {
            let i = choose|i: int| occurs_at(rest, part, i);
            assert(s.subrange(i + 1, i + 1 + part.len()) =~= rest.subrange(i, i + part.len()));
            assert(occurs_at(s, part, i + 1));
        }
        law_replacing_goes_on_after_the_part(rest, part, with);
        assert(s =~= seq![s[0]] + rest);
    }
}

} // verus!
