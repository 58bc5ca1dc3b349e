//! Slash-separated paths, held as text and compared by their components.
use vstd::prelude::*;

use crate::text;

verus! {

/// Whether a path starts at the root.
pub open spec fn is_absolute(s: Seq<char>) -> bool {
    s.len() > 0 && s[0] == '/'
}

/// The pieces that name something: neither empty nor `.`.
pub open spec fn kept(pieces: Seq<Seq<char>>) -> Seq<Seq<char>>
    decreases pieces.len(),
{
    if pieces.len() == 0 {
        Seq::empty()
    } else {
        let rest = kept(pieces.drop_last());
        if pieces.last().len() == 0 || pieces.last() == seq!['.'] {
            rest
        } else {
            rest.push(pieces.last())
        }
    }
}

/// What a path starts with before its named pieces: the root, or an explicit `.`.
pub open spec fn head(s: Seq<char>) -> Seq<Seq<char>> {
    if is_absolute(s) {
        seq![seq!['/']]
    } else if text::split_on(s, '/')[0] == seq!['.'] {
        seq![seq!['.']]
    } else {
        Seq::empty()
    }
}

/// The components of a path. The root is the component `/`.
pub open spec fn components(s: Seq<char>) -> Seq<Seq<char>> {
    head(s) + kept(text::split_on(s, '/'))
}

/// Where the named pieces can begin: behind the root, or behind an explicit `.`.
pub open spec fn body_start(s: Seq<char>) -> int {
    head(s).len() as int
}

/// Where the piece that ends at `end` begins: behind the last slash at or after `start`.
pub open spec fn piece_start(s: Seq<char>, start: int, end: int) -> int
    decreases end - start,
{
    if end <= start {
        start
    } else if s[end - 1] == '/' {
        end
    } else {
        piece_start(s, start, end - 1)
    }
}

/// Where the piece that begins at `i` ends: at the next slash.
pub open spec fn piece_end(s: Seq<char>, i: int) -> int
    decreases s.len() - i,
{
    if i >= s.len() {
        s.len() as int
    } else if s[i] == '/' {
        i
    } else {
        piece_end(s, i + 1)
    }
}

/// Whether the piece from `from` up to `to` names nothing.
pub open spec fn names_nothing(s: Seq<char>, from: int, to: int) -> bool {
    to == from || (to == from + 1 && s[from] == '.')
}

/// Where the last piece up to `end` that names something ends.
pub open spec fn tail_end(s: Seq<char>, start: int, end: int) -> int
    decreases end - start,
{
    if end <= start {
        end
    } else {
        let p = piece_start(s, start, end);
        if names_nothing(s, p, end) {
            if start < p <= end {
                tail_end(s, start, p - 1)
            } else {
                start
            }
        } else {
            end
        }
    }
}

/// Where the first piece from `i` on that names something begins.
pub open spec fn lead_start(s: Seq<char>, i: int) -> int
    decreases s.len() - i,
{
    if i >= s.len() {
        s.len() as int
    } else {
        let p = piece_end(s, i);
        if names_nothing(s, i, p) {
            if i <= p < s.len() {
                lead_start(s, p + 1)
            } else {
                s.len() as int
            }
        } else {
            i
        }
    }
}

/// Behind the next `k` pieces from `i` on that name something.
pub open spec fn past(s: Seq<char>, i: int, k: nat) -> int
    decreases k,
{
    if k == 0 {
        i
    } else {
        let p = piece_end(s, lead_start(s, i));
        past(
            s,
            if p < s.len() {
                p + 1
            } else {
                s.len() as int
            },
            (k - 1) as nat,
        )
    }
}

/// Whether two texts are the same path.
pub open spec fn same(a: Seq<char>, b: Seq<char>) -> bool {
    components(a) == components(b)
}

/// Whether `s` lies at or below `base`.
pub open spec fn within(s: Seq<char>, base: Seq<char>) -> bool {
    components(base).is_prefix_of(components(s))
}

/// The last component, where it names something.
pub open spec fn name_of(s: Seq<char>) -> Option<Seq<char>> {
    let c = components(s);
    if c.len() == 0 || c.last() == seq!['/'] || c.last() == seq!['.'] || c.last() == seq!['.', '.'] {
        None
    } else {
        Some(c.last())
    }
}

/// The text up to the last component; there is none for the root and for an empty path.
pub open spec fn parent_of(s: Seq<char>) -> Option<Seq<char>> {
    let start = body_start(s);
    let e = tail_end(s, start, s.len() as int);
    if e > start {
        let p = piece_start(s, start, e);
        Some(
            s.take(
                tail_end(
                    s,
                    start,
                    if p > start {
                        p - 1
                    } else {
                        start
                    },
                ),
            ),
        )
    } else if start > 0 && !is_absolute(s) {
        Some(Seq::empty())
    } else {
        None
    }
}

/// `b` taken from the directory `a`.
pub open spec fn joined_path(a: Seq<char>, b: Seq<char>) -> Seq<char> {
    if is_absolute(b) || a.len() == 0 {
        b
    } else if a.last() == '/' {
        a + b
    } else {
        a + seq!['/'] + b
    }
}

/// What follows the components of `base` in `s`.
pub open spec fn stripped(s: Seq<char>, base: Seq<char>) -> Option<Seq<char>> {
    let start = body_start(s);
    let e = tail_end(s, start, s.len() as int);
    let k = components(base).len();
    if !within(s, base) {
        None
    } else if k == 0 {
        Some(s.take(e))
    } else {
        let a = lead_start(s, past(s, start, (k - start) as nat));
        if a < e {
            Some(s.subrange(a, e))
        } else {
            Some(Seq::empty())
        }
    }
}

/// A file name without its extension.
pub open spec fn stem_of(name: Seq<char>) -> Seq<char> {
    if text::last_index(name, '.') <= 0 || name == seq!['.', '.'] {
        name
    } else {
        name.take(text::last_index(name, '.'))
    }
}

/// The extension of a file name.
pub open spec fn extension_of(name: Seq<char>) -> Option<Seq<char>> {
    if text::last_index(name, '.') <= 0 || name == seq!['.', '.'] {
        None
    } else {
        Some(text::after_last(name, '.'))
    }
}

/// Whether a path starts at the root.
pub fn absolute(s: &str) -> (r: bool)
    ensures
        r == is_absolute(s@),
{
    match text::first_char(s) {
        Some(c) => c == '/',
        None => false,
    }
}

fn is_dot(cs: &Vec<char>) -> (r: bool)
    ensures
        r == (cs@ == seq!['.']),
{
    if cs.len() == 1 && cs[0] == '.' {
        assert(cs@ =~= seq!['.']);
        true
    } else {
        assert(cs@ == seq!['.'] ==> cs@.len() == 1 && cs@[0] == '.');
        false
    }
}

fn is_slash(cs: &Vec<char>) -> (r: bool)
    ensures
        r == (cs@ == seq!['/']),
{
    if cs.len() == 1 && cs[0] == '/' {
        assert(cs@ =~= seq!['/']);
        true
    } else {
        assert(cs@ == seq!['/'] ==> cs@.len() == 1 && cs@[0] == '/');
        false
    }
}

fn is_dots(cs: &Vec<char>) -> (r: bool)
    ensures
        r == (cs@ == seq!['.', '.']),
{
    if cs.len() == 2 && cs[0] == '.' && cs[1] == '.' {
        assert(cs@ =~= seq!['.', '.']);
        true
    } else {
        assert(cs@ == seq!['.', '.'] ==> cs@.len() == 2 && cs@[0] == '.' && cs@[1] == '.');
        false
    }
}

fn one_char(c: char) -> (r: String)
    ensures
        r@ == seq![c],
{
    let mut s = String::new();
    s.push(c);
    assert(s@ =~= seq![c]);
    s
}

/// The components of a path.
pub fn split(s: &str) -> (r: Vec<String>)
    ensures
        text::texts(r@) == components(s@),
{
    let pieces = text::split(s, '/');
    let ghost all = text::split_on(s@, '/');
    let mut out: Vec<String> = Vec::new();
    assert(all[0] == pieces@[0]@);
    let first = text::chars_of(pieces[0].as_str());
    if absolute(s) {
        out.push(one_char('/'));
    } else if is_dot(&first) {
        out.push(one_char('.'));
    }
    assert(text::texts(out@) =~= head(s@));
    let mut i: usize = 0;
    assert(all.take(0) =~= Seq::<Seq<char>>::empty());
    assert(text::texts(out@) =~= head(s@) + kept(all.take(0)));
    while i < pieces.len()
        invariant
            i <= pieces@.len(),
            all == text::texts(pieces@),
            text::texts(out@) == head(s@) + kept(all.take(i as int)),
        decreases pieces@.len() - i,
    {
        let ghost prev = text::texts(out@);
        assert(all.take(i + 1).drop_last() =~= all.take(i as int));
        assert(all.take(i + 1).last() == pieces@[i as int]@);
        let cs = text::chars_of(pieces[i].as_str());
        if cs.len() > 0 && !is_dot(&cs) {
            out.push(pieces[i].clone());
            assert(text::texts(out@) =~= prev.push(pieces@[i as int]@));
            assert(text::texts(out@) =~= head(s@) + kept(all.take(i + 1)));
        }
        i += 1;
    }
    assert(all.take(all.len() as int) =~= all);
    out
}

fn equal_texts(a: &Vec<String>, b: &Vec<String>, n: usize) -> (r: bool)
    requires
        n <= a@.len(),
        n <= b@.len(),
    ensures
        r == (text::texts(a@).take(n as int) == text::texts(b@).take(n as int)),
{
    let mut i: usize = 0;
    let ghost x = text::texts(a@).take(n as int);
    let ghost y = text::texts(b@).take(n as int);
    while i < n
        invariant
            i <= n,
            n <= a@.len(),
            n <= b@.len(),
            x == text::texts(a@).take(n as int),
            y == text::texts(b@).take(n as int),
            forall|j: int| 0 <= j < i ==> x[j] == y[j],
        decreases n - i,
    {
        assert(x[i as int] == a@[i as int]@);
        assert(y[i as int] == b@[i as int]@);
        if !text::str_eq(a[i].as_str(), b[i].as_str()) {
            return false;
        }
        i += 1;
    }
    assert(x =~= y);
    true
}

/// Whether two texts are the same path.
pub fn eq(a: &str, b: &str) -> (r: bool)
    ensures
        r == same(a@, b@),
{
    let x = split(a);
    let y = split(b);
    let n = x.len();
    assert(text::texts(x@).len() == x@.len());
    assert(text::texts(y@).len() == y@.len());
    if n != y.len() {
        return false;
    }
    assert(text::texts(x@).take(n as int) =~= text::texts(x@));
    assert(text::texts(y@).take(n as int) =~= text::texts(y@));
    equal_texts(&x, &y, n)
}

/// Whether `s` lies at or below `base`.
pub fn starts_with(s: &str, base: &str) -> (r: bool)
    ensures
        r == within(s@, base@),
{
    let x = split(s);
    let y = split(base);
    let n = y.len();
    assert(text::texts(x@).len() == x@.len());
    assert(text::texts(y@).len() == y@.len());
    if n > x.len() {
        return false;
    }
    assert(text::texts(y@).take(n as int) =~= text::texts(y@));
    assert(text::texts(x@).take(n as int) =~= text::texts(x@).subrange(0, n as int));
    equal_texts(&x, &y, n)
}

/// The last component, where it names something.
pub fn file_name(s: &str) -> (r: Option<String>)
    ensures
        text::opt_text(r) == name_of(s@),
{
    let c = split(s);
    let n = c.len();
    assert(text::texts(c@).len() == c@.len());
    if n == 0 {
        return None;
    }
    assert(text::texts(c@).last() == c@[n - 1]@);
    let cs = text::chars_of(c[n - 1].as_str());
    if is_slash(&cs) || is_dot(&cs) || is_dots(&cs) {
        None
    } else {
        Some(c[n - 1].clone())
    }
}

/// The last component, or the path itself where there is none.
pub fn display_name(s: &str) -> (r: String)
    ensures
        r@ == shown_name(s@),
{
    match file_name(s) {
        Some(n) => n,
        None => s.to_owned(),
    }
}

/// The name under which a path is shown.
pub open spec fn shown_name(s: Seq<char>) -> Seq<char> {
    match name_of(s) {
        Some(n) => n,
        None => s,
    }
}

proof fn lemma_piece_start(s: Seq<char>, start: int, end: int)
    requires
        0 <= start,
    ensures
        start <= piece_start(s, start, end),
        start <= end ==> piece_start(s, start, end) <= end,
    decreases end - start,
{
    if end > start && s[end - 1] != '/' {
        lemma_piece_start(s, start, end - 1);
    }
}

proof fn lemma_tail_end(s: Seq<char>, start: int, end: int)
    requires
        0 <= start <= end,
    ensures
        start <= tail_end(s, start, end) <= end,
    decreases end,
{
    if end > start {
        let p = piece_start(s, start, end);
        lemma_piece_start(s, start, end);
        if names_nothing(s, p, end) && start < p {
            lemma_tail_end(s, start, p - 1);
        }
    }
}

proof fn lemma_piece_end(s: Seq<char>, i: int)
    requires
        0 <= i <= s.len(),
    ensures
        i <= piece_end(s, i) <= s.len(),
    decreases s.len() - i,
{
    if i < s.len() && s[i] != '/' {
        lemma_piece_end(s, i + 1);
    }
}

fn find_piece_start(cs: &Vec<char>, start: usize, end: usize) -> (r: usize)
    requires
        start <= end <= cs@.len(),
    ensures
        start <= r <= end,
        r == piece_start(cs@, start as int, end as int),
{
    let mut n: usize = end;
    while n > start
        invariant
            start <= n <= end <= cs@.len(),
            piece_start(cs@, start as int, n as int) == piece_start(
                cs@,
                start as int,
                end as int,
            ),
        decreases n,
    {
        if cs[n - 1] == '/' {
            return n;
        }
        n -= 1;
    }
    start
}

fn find_piece_end(cs: &Vec<char>, i: usize) -> (r: usize)
    requires
        i <= cs@.len(),
    ensures
        i <= r <= cs@.len(),
        r == piece_end(cs@, i as int),
{
    let mut n: usize = i;
    while n < cs.len()
        invariant
            i <= n <= cs@.len(),
            piece_end(cs@, n as int) == piece_end(cs@, i as int),
        decreases cs@.len() - n,
    {
        if cs[n] == '/' {
            return n;
        }
        n += 1;
    }
    n
}

fn blank_piece(cs: &Vec<char>, from: usize, to: usize) -> (r: bool)
    requires
        from <= to <= cs@.len(),
    ensures
        r == names_nothing(cs@, from as int, to as int),
{
    to == from || (to - from == 1 && cs[from] == '.')
}

fn find_tail_end(cs: &Vec<char>, start: usize, end: usize) -> (r: usize)
    requires
        start <= end <= cs@.len(),
    ensures
        start <= r <= end,
        r == tail_end(cs@, start as int, end as int),
{
    let mut n: usize = end;
    while n > start
        invariant
            start <= n <= end <= cs@.len(),
            tail_end(cs@, start as int, n as int) == tail_end(cs@, start as int, end as int),
        decreases n,
    {
        let p = find_piece_start(cs, start, n);
        if !blank_piece(cs, p, n) {
            return n;
        }
        if p == start {
            return start;
        }
        n = p - 1;
    }
    n
}

fn find_lead_start(cs: &Vec<char>, i: usize) -> (r: usize)
    requires
        i <= cs@.len(),
    ensures
        i <= r <= cs@.len(),
        r == lead_start(cs@, i as int),
{
    let mut n: usize = i;
    while n < cs.len()
        invariant
            i <= n <= cs@.len(),
            lead_start(cs@, n as int) == lead_start(cs@, i as int),
        decreases cs@.len() - n,
    {
        let p = find_piece_end(cs, n);
        if !blank_piece(cs, n, p) {
            return n;
        }
        if p == cs.len() {
            return p;
        }
        n = p + 1;
    }
    n
}

fn find_past(cs: &Vec<char>, i: usize, k: usize) -> (r: usize)
    requires
        i <= cs@.len(),
    ensures
        i <= r <= cs@.len(),
        r == past(cs@, i as int, k as nat),
{
    let mut n: usize = i;
    let mut left: usize = k;
    while left > 0
        invariant
            i <= n <= cs@.len(),
            past(cs@, n as int, left as nat) == past(cs@, i as int, k as nat),
        decreases left,
    {
        let a = find_lead_start(cs, n);
        let p = find_piece_end(cs, a);
        n = if p < cs.len() {
            p + 1
        } else {
            cs.len()
        };
        left -= 1;
    }
    n
}

/// Where the named pieces can begin.
fn body_from(s: &str, cs: &Vec<char>) -> (r: usize)
    requires
        cs@ == s@,
    ensures
        r == body_start(s@),
        r <= 1,
        r <= s@.len(),
{
    if absolute(s) {
        return 1;
    }
    let pieces = text::split(s, '/');
    let ghost all = text::split_on(s@, '/');
    assert(all[0] == pieces@[0]@);
    let first = text::chars_of(pieces[0].as_str());
    if is_dot(&first) {
        proof {
            if s@.len() == 0 {
                assert(all[0] =~= Seq::<char>::empty());
            }
        }
        1
    } else {
        0
    }
}

/// The parent of a path is shorter than the path.
pub proof fn law_parent_is_shorter(s: Seq<char>)
    ensures
        parent_of(s) matches Some(d) ==> d.len() < s.len(),
{
    let start = body_start(s);
    let n = s.len() as int;
    if start <= n {
        lemma_tail_end(s, start, n);
        let e = tail_end(s, start, n);
        if e > start {
            lemma_piece_start(s, start, e);
            let p = piece_start(s, start, e);
            lemma_tail_end(
                s,
                start,
                if p > start {
                    p - 1
                } else {
                    start
                },
            );
        }
    } else {
        assert(text::split_on(s, '/')[0].len() == 0) by {
            assert(s.len() == 0);
        }
    }
}

/// The path without its last component.
pub fn parent(s: &str) -> (r: Option<String>)
    ensures
        text::opt_text(r) == parent_of(s@),
{
    let cs = text::chars_of(s);
    let start = body_from(s, &cs);
    let e = find_tail_end(&cs, start, cs.len());
    if e > start {
        let p = find_piece_start(&cs, start, e);
        let u: usize = if p > start {
            p - 1
        } else {
            start
        };
        let t = find_tail_end(&cs, start, u);
        let r = text::string_of(&cs, 0, t);
        assert(r@ =~= s@.take(t as int));
        Some(r)
    } else if start > 0 && !absolute(s) {
        let r = String::new();
        assert(r@ =~= Seq::<char>::empty());
        Some(r)
    } else {
        None
    }
}

/// `b` taken from the directory `a`.
pub fn join(a: &str, b: &str) -> (r: String)
    ensures
        r@ == joined_path(a@, b@),
{
    let cs = text::chars_of(a);
    proof {
        reveal_strlit("/");
        assert("/"@ =~= seq!['/']);
    }
    if absolute(b) || cs.len() == 0 {
        b.to_owned()
    } else if cs[cs.len() - 1] == '/' {
        text::cat2(a, b)
    } else {
        text::cat3(a, "/", b)
    }
}

/// What follows the components of `base` in `s`.
pub fn strip_prefix(s: &str, base: &str) -> (r: Option<String>)
    ensures
        text::opt_text(r) == stripped(s@, base@),
{
    if !starts_with(s, base) {
        return None;
    }
    let cs = text::chars_of(s);
    let start = body_from(s, &cs);
    let e = find_tail_end(&cs, start, cs.len());
    let b = split(base);
    let k = b.len();
    assert(text::texts(b@).len() == k);
    if k == 0 {
        let r = text::string_of(&cs, 0, e);
        assert(r@ =~= s@.take(e as int));
        return Some(r);
    }
    let from = find_past(&cs, start, k - start);
    let a = find_lead_start(&cs, from);
    if a < e {
        Some(text::string_of(&cs, a, e))
    } else {
        let r = String::new();
        assert(r@ =~= Seq::<char>::empty());
        Some(r)
    }
}

/// A file name without its extension.
pub fn file_stem(name: &str) -> (r: String)
    ensures
        r@ == stem_of(name@),
{
    let cs = text::chars_of(name);
    proof {
        text::lemma_last_index(name@, '.');
    }
    match text::rfind(&cs, '.') {
        Some(i) => {
            if i == 0 || is_dots(&cs) {
                name.to_owned()
            } else {
                let r = text::string_of(&cs, 0, i);
                assert(r@ =~= name@.take(i as int));
                r
            }
        },
        None => name.to_owned(),
    }
}

/// The extension of a file name.
pub fn extension(name: &str) -> (r: Option<String>)
    ensures
        text::opt_text(r) == extension_of(name@),
{
    let cs = text::chars_of(name);
    proof {
        text::lemma_last_index(name@, '.');
    }
    match text::rfind(&cs, '.') {
        Some(i) => {
            if i == 0 || is_dots(&cs) {
                None
            } else {
                Some(text::take_after_last(name, '.'))
            }
        },
        None => None,
    }
}

/// The same text is the same path, and sameness carries over.
pub proof fn law_same_is_an_equivalence(a: Seq<char>, b: Seq<char>, c: Seq<char>)
    ensures
        same(a, a),
        same(a, b) ==> same(b, a),
        same(a, b) && same(b, c) ==> same(a, c),
{
}

/// What lies below a directory lies below everything that the directory lies below.
pub proof fn law_within_is_transitive(a: Seq<char>, b: Seq<char>, c: Seq<char>)
    requires
        within(a, b),
        within(b, c),
    ensures
        within(a, c),
{
    let x = components(a);
    let y = components(b);
    let z = components(c);
    assert(x.subrange(0, z.len() as int) =~= y.subrange(0, z.len() as int)) by {
        assert forall|i: int| 0 <= i < z.len() implies x[i] == y[i] by {
            assert(x.subrange(0, y.len() as int)[i] == y[i]);
        }
    }
}

proof fn lemma_kept_add(a: Seq<Seq<char>>, b: Seq<Seq<char>>)
    ensures
        kept(a + b) == kept(a) + kept(b),
    decreases b.len(),
{
    if b.len() == 0 {
        assert(a + b =~= a);
        assert(kept(a) + kept(b) =~= kept(a));
    } else {
        assert((a + b).drop_last() =~= a + b.drop_last());
        assert((a + b).last() == b.last());
        lemma_kept_add(a, b.drop_last());
        assert(kept(a + b) =~= kept(a) + kept(b));
    }
}

/// Whether a text can name a thing in a folder: it is not empty, holds no slash and is not a dot.
pub open spec fn is_name(n: Seq<char>) -> bool {
    n.len() > 0 && !n.contains('/') && n != seq!['.']
}

proof fn lemma_components_below(dir: Seq<char>, n: Seq<char>)
    requires
        dir.len() > 0,
        is_name(n),
    ensures
        components(dir + seq!['/'] + n) == components(dir).push(n),
{
    let s = dir + seq!['/'] + n;
    let pd = text::split_on(dir, '/');
    text::law_split_where_it_stands(dir, '/', n);
    text::law_split_where_it_stands(n, '/', dir);
    text::lemma_split_nonempty(dir, '/');
    assert(text::split_on(s, '/') == pd + seq![n]);
    lemma_kept_add(pd, seq![n]);
    assert(seq![n].drop_last() =~= Seq::<Seq<char>>::empty());
    assert(seq![n].last() == n);
    assert(kept(seq![n].drop_last()) =~= Seq::<Seq<char>>::empty());
    assert(kept(seq![n]) =~= seq![n]);
    assert(s[0] == dir[0]);
    assert(text::split_on(s, '/')[0] == pd[0]);
    assert(components(s) =~= components(dir).push(n));
}

/// A name put below a folder is the last part of the path: it is the name of what the path leads to,
/// which lies in the folder and is not the folder.
pub proof fn law_a_name_below_a_folder(dir: Seq<char>, n: Seq<char>)
    requires
        dir.len() > 0,
        is_name(n),
    ensures
        components(joined_path(dir, n)) == components(dir).push(n),
        n != seq!['.', '.'] ==> name_of(joined_path(dir, n)) == Some(n),
        within(joined_path(dir, n), dir),
        !same(joined_path(dir, n), dir),
        !within(dir, joined_path(dir, n)),
{
    assert(!is_absolute(n)) by {
        if n[0] == '/' {
            assert(n.contains('/'));
        }
    }
    lemma_components_below(dir, n);
    if dir.last() == '/' {
        let d = dir.drop_last();
        assert(dir =~= d + seq!['/']);
        assert(dir + n =~= d + seq!['/'] + n);
        if d.len() > 0 {
            lemma_components_below(d, n);
            text::law_split_where_it_stands(d, '/', Seq::empty());
            text::lemma_split_nonempty(d, '/');
            let e = seq![Seq::<char>::empty()];
            assert(text::split_on(Seq::<char>::empty(), '/') =~= e);
            assert(d + seq!['/'] + Seq::<char>::empty() =~= dir);
            lemma_kept_add(text::split_on(d, '/'), e);
            assert(e.drop_last() =~= Seq::<Seq<char>>::empty());
            assert(kept(e.drop_last()) =~= Seq::<Seq<char>>::empty());
            assert(kept(e) =~= Seq::<Seq<char>>::empty());
            assert(kept(text::split_on(dir, '/')) =~= kept(text::split_on(d, '/')));
            assert(dir[0] == d[0]);
            assert(text::split_on(dir, '/')[0] == text::split_on(d, '/')[0]);
            assert(components(dir) =~= components(d));
        } else {
            let e = Seq::<char>::empty();
            assert(dir =~= seq!['/']);
            assert(d =~= e);
            text::law_split_where_it_stands(e, '/', n);
            text::law_split_where_it_stands(e, '/', e);
            text::law_split_where_it_stands(n, '/', e);
            assert(e + seq!['/'] + e =~= dir);
            let two = text::split_on(dir, '/');
            assert(text::split_on(e, '/') =~= seq![e]);
            assert(two =~= seq![e, e]);
            assert(two.drop_last() =~= seq![e]);
            assert(seq![e].drop_last() =~= Seq::<Seq<char>>::empty());
            assert(kept(seq![e].drop_last()) =~= Seq::<Seq<char>>::empty());
            assert(kept(seq![e]) =~= Seq::<Seq<char>>::empty());
            assert(kept(two) =~= Seq::<Seq<char>>::empty());
            let with = text::split_on(dir + n, '/');
            assert(with =~= seq![e] + seq![n]);
            lemma_kept_add(seq![e], seq![n]);
            assert(seq![n].drop_last() =~= Seq::<Seq<char>>::empty());
            assert(kept(seq![n].drop_last()) =~= Seq::<Seq<char>>::empty());
            assert(kept(seq![n]) =~= seq![n]);
            assert((dir + n)[0] == '/');
            assert(components(dir + n) =~= components(dir).push(n));
        }
    }
    let c = components(joined_path(dir, n));
    assert(c.last() == n);
    if n == seq!['/'] {
        assert(n[0] == '/');
        assert(n.contains('/'));
    }
    assert(c.take(components(dir).len() as int) =~= components(dir));
}

proof fn lemma_piece_before(s: Seq<char>, start: int, end: int)
    requires
        0 <= start <= end <= s.len(),
    ensures
        start <= piece_start(s, start, end) <= end,
        end > start && s[end - 1] != '/' ==> piece_start(s, start, end) < end,
    decreases end - start,
{
    if end > start && s[end - 1] != '/' {
        lemma_piece_before(s, start, end - 1);
    }
}

proof fn lemma_piece_after_slash(s: Seq<char>, start: int, slash: int, end: int)
    requires
        0 <= start <= slash < end <= s.len(),
        s[slash] == '/',
        forall|i: int| slash < i < end ==> s[i] != '/',
    ensures
        piece_start(s, start, end) == slash + 1,
    decreases end - slash,
{
    if end > slash + 1 {
        lemma_piece_after_slash(s, start, slash, end - 1);
    }
}

/// The folder that a thing lies in is what its path was before the name was put below it.
pub proof fn law_the_folder_of_what_lies_in_it(dir: Seq<char>, n: Seq<char>)
    requires
        dir.len() > 0,
        dir.last() != '/',
        dir.last() != '.',
        is_name(n),
    ensures
        parent_of(joined_path(dir, n)) == Some(dir),
{
    let s = dir + seq!['/'] + n;
    assert(!is_absolute(n)) by {
        if n[0] == '/' {
            assert(n.contains('/'));
        }
    }
    assert(joined_path(dir, n) == s);
    let pd = text::split_on(dir, '/');
    text::law_split_where_it_stands(dir, '/', n);
    text::lemma_split_nonempty(dir, '/');
    assert(text::split_on(s, '/')[0] == pd[0]);
    assert(s[0] == dir[0]);
    let start = body_start(s);
    let d = dir.len() as int;
    assert(s[d] == '/');
    assert(s[d - 1] == dir.last());
    if start >= d {
        assert(start == 1 && d == 1);
        if !is_absolute(s) {
            text::law_pieces_make_the_text(dir, '/');
            text::law_split_where_it_stands(dir, '/', n);
            if dir.contains('/') {
                assert(dir[0] == '/');
            }
            assert(pd =~= seq![dir]);
            assert(dir =~= seq!['.']);
            assert(dir.last() == '.');
        }
    }
    assert forall|i: int| d < i < s.len() implies s[i] != '/' by {
        if s[i] == '/' {
            assert(n[i - d - 1] == '/');
            assert(n.contains('/'));
        }
    }
    lemma_piece_after_slash(s, start, d, s.len() as int);
    assert(!names_nothing(s, d + 1, s.len() as int)) by {
        if n.len() == 1 && s[d + 1] == '.' {
            assert(n =~= seq!['.']);
        }
    }
    lemma_piece_before(s, start, d);
    assert(s.take(d) =~= dir);
}

proof fn lemma_last_dot(stem: Seq<char>, ext: Seq<char>)
    requires
        !ext.contains('.'),
    ensures
        text::last_index(stem + seq!['.'] + ext, '.') == stem.len(),
        text::last_index(ext, '.') == -1,
{
    let name = stem + seq!['.'] + ext;
    text::lemma_last_index(name, '.');
    text::lemma_last_index(ext, '.');
    assert(name[stem.len() as int] == '.');
    let k = text::last_index(name, '.');
    if k > stem.len() {
        assert(ext[k - stem.len() - 1] == '.');
    }
}

/// A name with a dot inside is its stem, the dot and its extension.
pub proof fn law_a_name_is_stem_and_extension(stem: Seq<char>, ext: Seq<char>)
    requires
        stem.len() > 0,
        !ext.contains('.'),
        !(stem == seq!['.'] && ext.len() == 0),
    ensures
        stem_of(stem + seq!['.'] + ext) == stem,
        extension_of(stem + seq!['.'] + ext) == Some(ext),
{
    let name = stem + seq!['.'] + ext;
    lemma_last_dot(stem, ext);
    if name == seq!['.', '.'] {
        assert(name.len() == 2);
        assert(name[0] == stem[0]);
        assert(stem =~= seq!['.']);
    }
    assert(name.take(stem.len() as int) =~= stem);
    assert(name.skip(stem.len() as int + 1) =~= ext);
}

/// A name without a dot, or with one at its beginning alone, has no extension.
pub proof fn law_a_hidden_name_has_no_extension(rest: Seq<char>)
    requires
        !rest.contains('.'),
    ensures
        extension_of(rest) is None && stem_of(rest) == rest,
        extension_of(seq!['.'] + rest) is None && stem_of(seq!['.'] + rest) == seq!['.'] + rest,
{
    let e = Seq::<char>::empty();
    lemma_last_dot(e, rest);
    assert(e + seq!['.'] + rest =~= seq!['.'] + rest);
}

/// Slashes at the end, doubled ones and dots between slashes do not make another path.
pub proof fn law_the_same_path_in_other_words(dir: Seq<char>, below: Seq<char>)
    requires
        dir.len() > 0,
    ensures
        same(dir + seq!['/'], dir),
        same(dir + seq!['/', '/'] + below, dir + seq!['/'] + below),
        same(dir + seq!['/', '.', '/'] + below, dir + seq!['/'] + below),
{
    let e = Seq::<char>::empty();
    let dot = seq!['.'];
    let pd = text::split_on(dir, '/');
    let pb = text::split_on(below, '/');
    text::lemma_split_nonempty(dir, '/');
    assert(text::split_on(e, '/') =~= seq![e]);
    assert(!dot.contains('/'));
    text::law_split_where_it_stands(dot, '/', e);
    text::law_split_where_it_stands(dir, '/', e);
    text::law_split_where_it_stands(dir, '/', below);
    text::law_split_where_it_stands(e, '/', below);
    text::law_split_where_it_stands(dot, '/', below);
    text::law_split_where_it_stands(dir, '/', e + seq!['/'] + below);
    text::law_split_where_it_stands(dir, '/', dot + seq!['/'] + below);
    assert(dir + seq!['/'] + e =~= dir + seq!['/']);
    assert(dir + seq!['/'] + (e + seq!['/'] + below) =~= dir + seq!['/', '/'] + below);
    assert(dir + seq!['/'] + (dot + seq!['/'] + below) =~= dir + seq!['/', '.', '/'] + below);
    assert(seq![e].drop_last() =~= Seq::<Seq<char>>::empty());
    assert(seq![dot].drop_last() =~= Seq::<Seq<char>>::empty());
    assert(kept(Seq::<Seq<char>>::empty()) =~= Seq::<Seq<char>>::empty());
    assert(kept(seq![e]) =~= Seq::<Seq<char>>::empty());
    assert(kept(seq![dot]) =~= Seq::<Seq<char>>::empty());
    lemma_kept_add(pd, seq![e]);
    lemma_kept_add(pd, pb);
    lemma_kept_add(seq![e], pb);
    lemma_kept_add(seq![dot], pb);
    lemma_kept_add(pd, seq![e] + pb);
    lemma_kept_add(pd, seq![dot] + pb);
    assert(kept(seq![e] + pb) =~= kept(pb));
    assert(kept(seq![dot] + pb) =~= kept(pb));
    let a = dir + seq!['/'];
    let b = dir + seq!['/'] + below;
    let c = dir + seq!['/', '/'] + below;
    let d = dir + seq!['/', '.', '/'] + below;
    assert(a[0] == dir[0] && b[0] == dir[0] && c[0] == dir[0] && d[0] == dir[0]);
    assert(text::split_on(a, '/')[0] == pd[0]);
    assert(text::split_on(b, '/')[0] == pd[0]);
    assert(text::split_on(c, '/')[0] == pd[0]);
    assert(text::split_on(d, '/')[0] == pd[0]);
    assert(components(a) =~= components(dir));
    assert(components(c) =~= components(b));
    assert(components(d) =~= components(b));
}

/// Whether a path ends in a name, which is so where its last character is neither a slash nor a dot.
pub open spec fn ends_in_name(s: Seq<char>) -> bool {
    s.len() > 0 && s.last() != '/' && s.last() != '.'
}

proof fn lemma_ends_at(s: Seq<char>, i: int)
    requires
        0 <= i <= s.len(),
    ensures
        i <= piece_end(s, i) <= s.len(),
        piece_end(s, i) < s.len() ==> s[piece_end(s, i)] == '/',
        forall|j: int| i <= j < piece_end(s, i) ==> s[j] != '/',
    decreases s.len() - i,
{
    if i < s.len() && s[i] != '/' {
        lemma_ends_at(s, i + 1);
    }
}

proof fn lemma_same_piece(root: Seq<char>, rest: Seq<char>, i: int)
    requires
        0 <= i <= root.len(),
    ensures
        piece_end(root + seq!['/'] + rest, i) == piece_end(root, i),
    decreases root.len() - i,
{
    let s = root + seq!['/'] + rest;
    if i < root.len() {
        assert(s[i] == root[i]);
        if root[i] != '/' {
            lemma_same_piece(root, rest, i + 1);
        }
    } else {
        assert(s[i] == '/');
    }
}

/// From a place in a folder's path on, as many names as are left there lead past its end.
proof fn lemma_past_the_folder(root: Seq<char>, rest: Seq<char>, i: int)
    requires
        0 <= i < root.len(),
        ends_in_name(root),
    ensures
        ({
            let m = kept(text::split_on(root.skip(i), '/')).len();
            &&& m >= 1
            &&& past(root + seq!['/'] + rest, i, m) == root.len() + 1
        }),
    decreases root.len() - i,
{
    let s = root + seq!['/'] + rest;
    let from = root.skip(i);
    let p = piece_end(root, i);
    lemma_ends_at(root, i);
    lemma_same_piece(root, rest, i);
    let x = root.subrange(i, p);
    assert(!x.contains('/')) by {
        if x.contains('/') {
            let k = x.index_of('/');
            assert(root[i + k] == '/');
        }
    }
    text::law_split_where_it_stands(x, '/', Seq::empty());
    assert(text::split_on(x, '/') == seq![x]);
    assert(seq![x].drop_last() =~= Seq::<Seq<char>>::empty());
    assert(seq![x].last() == x);
    assert(kept(seq![x].drop_last()) =~= Seq::<Seq<char>>::empty());
    let nothing = names_nothing(s, i, p);
    assert(nothing == (x.len() == 0 || x == seq!['.'])) by {
        if x.len() == 1 {
            assert(x[0] == s[i]);
            if s[i] == '.' {
                assert(x =~= seq!['.']);
            }
        }
    }
    assert(kept(seq![x]) =~= if nothing {
        Seq::<Seq<char>>::empty()
    } else {
        seq![x]
    });
    if p == root.len() {
        assert(from =~= x);
        assert(x.last() == root.last());
        if x == seq!['.'] {
            assert(x.last() == '.');
        }
        assert(!nothing);
        let m = kept(text::split_on(from, '/')).len();
        assert(m == 1);
        assert(lead_start(s, i) == i);
        assert(past(s, root.len() as int + 1, 0) == root.len() + 1);
        assert(past(s, i, 1) == root.len() + 1);
    } else {
        let y = root.skip(p + 1);
        assert(from =~= x + seq!['/'] + y);
        text::law_split_where_it_stands(x, '/', y);
        lemma_kept_add(seq![x], text::split_on(y, '/'));
        assert(root[p] == '/');
        assert(root[root.len() - 1] != '/');
        assert(p + 1 < root.len());
        lemma_past_the_folder(root, rest, p + 1);
        let m = kept(text::split_on(from, '/')).len();
        let n = kept(text::split_on(y, '/')).len();
        if nothing {
            assert(m == n);
            assert(lead_start(s, i) == lead_start(s, p + 1));
            assert(past(s, i, m) == past(s, p + 1, m));
        } else {
            assert(m == n + 1);
            assert(lead_start(s, i) == i);
            assert(past(s, i, m) == past(s, p + 1, n));
        }
    }
}

/// What lies below a folder is told from the folder on: put below it again it is the same path.
pub proof fn law_the_rest_of_a_path_below_a_folder(root: Seq<char>, rel: Seq<char>)
    requires
        ends_in_name(root),
        ends_in_name(rel),
        rel[0] != '/',
        rel[0] != '.',
    ensures
        stripped(joined_path(root, rel), root) == Some(rel),
        within(joined_path(root, rel), root),
{
    let s = root + seq!['/'] + rel;
    assert(joined_path(root, rel) == s);
    let pr = text::split_on(root, '/');
    text::law_split_where_it_stands(root, '/', rel);
    text::lemma_split_nonempty(root, '/');
    lemma_kept_add(pr, text::split_on(rel, '/'));
    assert(s[0] == root[0]);
    assert(text::split_on(s, '/')[0] == pr[0]);
    assert(head(s) == head(root));
    assert(components(s) =~= components(root) + kept(text::split_on(rel, '/')));
    assert(components(s).take(components(root).len() as int) =~= components(root));
    let start = body_start(s);
    let k = components(root).len();
    let e = tail_end(s, start, s.len() as int);
    lemma_piece_before(s, start, s.len() as int);
    assert(s.last() == rel.last());
    assert(e == s.len()) by {
        let p = piece_start(s, start, s.len() as int);
        assert(s[s.len() - 1] == rel.last());
    }
    let count = (k - start) as nat;
    assert(count == kept(pr).len());
    if start == 1 && root.len() == 1 {
        if !is_absolute(root) {
            if root.contains('/') {
                assert(root[0] == '/');
            }
            text::law_split_where_it_stands(root, '/', Seq::empty());
            assert(pr =~= seq![root]);
            assert(root.last() == '.');
        }
    }
    assert(start < root.len());
    lemma_past_the_folder(root, rel, start);
    let from = root.skip(start);
    assert(kept(text::split_on(from, '/')).len() == count) by {
        if is_absolute(root) {
            let empty = Seq::<char>::empty();
            assert(root =~= empty + seq!['/'] + from);
            text::law_split_where_it_stands(empty, '/', from);
            assert(text::split_on(empty, '/') =~= seq![empty]);
            lemma_kept_add(seq![empty], text::split_on(from, '/'));
            assert(seq![empty].drop_last() =~= Seq::<Seq<char>>::empty());
            assert(kept(seq![empty].drop_last()) =~= Seq::<Seq<char>>::empty());
            assert(kept(seq![empty]) =~= Seq::<Seq<char>>::empty());
        } else if start == 1 {
            lemma_leading_dot(root);
        } else {
            assert(from =~= root);
        }
    }
    let a = lead_start(s, root.len() as int + 1);
    assert(s[root.len() as int + 1] == rel[0]);
    lemma_ends_at(s, root.len() as int + 1);
    assert(a == root.len() + 1);
    assert(s.subrange(root.len() as int + 1, s.len() as int) =~= rel);
}

proof fn lemma_leading_dot(root: Seq<char>)
    requires
        ends_in_name(root),
        !is_absolute(root),
        text::split_on(root, '/')[0] == seq!['.'],
    ensures
        kept(text::split_on(root.skip(1), '/')) == kept(text::split_on(root, '/')),
{
    let p = piece_end(root, 0);
    lemma_ends_at(root, 0);
    let x = root.take(p);
    assert(!x.contains('/')) by {
        if x.contains('/') {
            let k = x.index_of('/');
            assert(root[k] == '/');
        }
    }
    text::law_split_where_it_stands(x, '/', Seq::empty());
    if p == root.len() {
        assert(x =~= root);
        assert(root.last() == '.');
    } else {
        let y = root.skip(p + 1);
        let empty = Seq::<char>::empty();
        let dot = seq!['.'];
        assert(root =~= x + seq!['/'] + y);
        text::law_split_where_it_stands(x, '/', y);
        assert(x == dot);
        assert(p == 1);
        assert(root.skip(1) =~= empty + seq!['/'] + y);
        text::law_split_where_it_stands(empty, '/', y);
        assert(text::split_on(empty, '/') =~= seq![empty]);
        lemma_kept_add(seq![dot], text::split_on(y, '/'));
        lemma_kept_add(seq![empty], text::split_on(y, '/'));
        assert(seq![empty].drop_last() =~= Seq::<Seq<char>>::empty());
        assert(seq![dot].drop_last() =~= Seq::<Seq<char>>::empty());
        assert(kept(Seq::<Seq<char>>::empty()) =~= Seq::<Seq<char>>::empty());
        assert(kept(seq![empty]) =~= Seq::<Seq<char>>::empty());
        assert(kept(seq![dot]) =~= Seq::<Seq<char>>::empty());
        assert(kept(text::split_on(root.skip(1), '/')) =~= kept(text::split_on(root, '/')));
    }
}

} // verus!
