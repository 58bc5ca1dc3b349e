//! Quick open: fuzzy search over the files of a project.
use vstd::prelude::*;

use nucleo_matcher::Matcher;
use nucleo_matcher::pattern::{CaseMatching, Normalization, Pattern};
use nucleo_matcher::{Config, Utf32Str};

use crate::select;
use crate::text;

verus! {

/// How many files are offered at most.
pub const MAX_RESULTS: usize = 60;

/// What quick open asks of its owner.
pub enum QuickOpenEvent {
    Open(String),
}

/// The fuzzy matcher, whose scratch memory is kept between searches.
#[verifier::external_type_specification]
#[verifier::external_body]
pub struct ExMatcher(nucleo_matcher::Matcher);

/// The score of the path `haystack` for the pattern `query`, under the matcher's path settings.
pub uninterp spec fn path_score(query: Seq<char>, haystack: Seq<char>) -> Option<u32>;

/// A lower-case character that folds to another one. The matcher folds it when it looks for a path's
/// first match, and not when it scores the path from there.
pub open spec fn folds_apart(c: char) -> bool {
    let n = c as u32;
    ||| n == 0xb5
    ||| n == 0x17f
    ||| n == 0x345
    ||| n == 0x3c2
    ||| n == 0x3d0
    ||| n == 0x3d1
    ||| n == 0x3d5
    ||| n == 0x3d6
    ||| n == 0x3f0
    ||| n == 0x3f1
    ||| n == 0x3f5
    ||| 0x13f8 <= n <= 0x13fd
    ||| 0x1c80 <= n <= 0x1c88
    ||| n == 0x1e9b
    ||| n == 0x1fbe
    ||| 0xab70 <= n <= 0xabbf
}

/// What such a character folds to.
pub open spec fn fold_of(c: char) -> int {
    let n = c as int;
    if n == 0xb5 {
        0x3bc
    } else if n == 0x17f {
        0x73
    } else if n == 0x345 || n == 0x1fbe {
        0x3b9
    } else if n == 0x3c2 {
        0x3c3
    } else if n == 0x3d0 {
        0x3b2
    } else if n == 0x3d1 {
        0x3b8
    } else if n == 0x3d5 {
        0x3c6
    } else if n == 0x3d6 {
        0x3c0
    } else if n == 0x3f0 {
        0x3ba
    } else if n == 0x3f1 {
        0x3c1
    } else if n == 0x3f5 {
        0x3b5
    } else if 0x13f8 <= n <= 0x13fd {
        n - 8
    } else if n == 0x1c80 {
        0x432
    } else if n == 0x1c81 {
        0x434
    } else if n == 0x1c82 {
        0x43e
    } else if n == 0x1c83 {
        0x441
    } else if n == 0x1c84 || n == 0x1c85 {
        0x442
    } else if n == 0x1c86 {
        0x44a
    } else if n == 0x1c87 {
        0x463
    } else if n == 0x1c88 {
        0xa64b
    } else if n == 0x1e9b {
        0x1e61
    } else if 0xab70 <= n <= 0xabbf {
        n - 0x97d0
    } else {
        n
    }
}

/// A character in one of the blocks that hold the variants of ASCII letters. The matcher takes a
/// path's variants for the letters themselves, but not for a word that holds a variant.
pub open spec fn may_vary(c: char) -> bool {
    let n = c as u32;
    ||| 0xc0 <= n <= 0x36f
    ||| 0x1d00 <= n <= 0x1ef1
    ||| 0x2071 <= n <= 0x2184
}

/// Whether the character at `k` parts two words of a pattern: a space without a backslash before it.
pub open spec fn parts_words(query: Seq<char>, k: int) -> bool {
    0 <= k < query.len() && query[k] == ' ' && (k == 0 || query[k - 1] != '\\')
}

/// Whether a word of a pattern begins at `i`.
pub open spec fn begins_word(query: Seq<char>, i: int) -> bool {
    0 <= i < query.len() && (i == 0 || parts_words(query, i - 1))
}

/// Whether the word that begins at `i` reaches to `j`.
pub open spec fn reaches(query: Seq<char>, i: int, j: int) -> bool {
    i <= j < query.len() && forall|k: int| i <= k <= j ==> !#[trigger] parts_words(query, k)
}

/// Whether a word begins at `i` for which the matcher may keep the variants of a letter apart.
/// Only for such a word a character folds in one place and not in the other.
pub open spec fn is_strict(query: Seq<char>, i: int) -> bool {
    begins_word(query, i) && exists|j: int|
        #[trigger] reaches(query, i, j) && may_vary(query[j])
}

/// The matcher looks for the first character of a word of `query` in `haystack`, and may find it
/// where it does not score it.
pub open spec fn trips(query: Seq<char>, haystack: Seq<char>) -> bool {
    exists|i: int, k: int|
        0 <= k < haystack.len() && #[trigger] is_strict(query, i) && folds_apart(
            #[trigger] haystack[k],
        ) && fold_of(haystack[k]) == query[i] as int
}

/// The texts that the matcher takes: it counts positions in 32 bits and the score of one word of
/// the pattern in 16, and it has to score a word from where it finds the first character.
pub open spec fn scorable(query: Seq<char>, haystack: Seq<char>) -> bool {
    &&& haystack.len() <= u32::MAX
    &&& query.len() <= 2048 || (query.len() <= 65536 && haystack.len() <= 2048)
    &&& !trips(query, haystack)
}

fn is_folded_apart(c: char) -> (r: bool)
    ensures
        r == folds_apart(c),
{
    let n = c as u32;
    n == 0xb5 || n == 0x17f || n == 0x345 || n == 0x3c2 || n == 0x3d0 || n == 0x3d1 || n == 0x3d5
        || n == 0x3d6 || n == 0x3f0 || n == 0x3f1 || n == 0x3f5 || (0x13f8 <= n && n <= 0x13fd)
        || (0x1c80 <= n && n <= 0x1c88) || n == 0x1e9b || n == 0x1fbe || (0xab70 <= n && n
        <= 0xabbf)
}

fn folded(c: char) -> (r: u32)
    ensures
        r == fold_of(c),
{
    let n = c as u32;
    match n {
        0xb5 => 0x3bc,
        0x17f => 0x73,
        0x345 | 0x1fbe => 0x3b9,
        0x3c2 => 0x3c3,
        0x3d0 => 0x3b2,
        0x3d1 => 0x3b8,
        0x3d5 => 0x3c6,
        0x3d6 => 0x3c0,
        0x3f0 => 0x3ba,
        0x3f1 => 0x3c1,
        0x3f5 => 0x3b5,
        0x1c80 => 0x432,
        0x1c81 => 0x434,
        0x1c82 => 0x43e,
        0x1c83 => 0x441,
        0x1c84 | 0x1c85 => 0x442,
        0x1c86 => 0x44a,
        0x1c87 => 0x463,
        0x1c88 => 0xa64b,
        0x1e9b => 0x1e61,
        _ => if 0x13f8 <= n && n <= 0x13fd {
            n - 8
        } else if 0xab70 <= n && n <= 0xabbf {
            n - 0x97d0
        } else {
            n
        },
    }
}

fn is_variant(c: char) -> (r: bool)
    ensures
        r == may_vary(c),
{
    let n = c as u32;
    (0xc0 <= n && n <= 0x36f) || (0x1d00 <= n && n <= 0x1ef1) || (0x2071 <= n && n <= 0x2184)
}

fn is_parting(query: &Vec<char>, k: usize) -> (r: bool)
    requires
        k < query@.len(),
    ensures
        r == parts_words(query@, k as int),
{
    query[k] == ' ' && (k == 0 || query[k - 1] != '\\')
}

/// Whether a strict word begins at `i`.
fn begins_strict(query: &Vec<char>, i: usize) -> (r: bool)
    requires
        i < query@.len(),
    ensures
        r == is_strict(query@, i as int),
{
    if i > 0 && !is_parting(query, i - 1) {
        return false;
    }
    let mut j: usize = i;
    while j < query.len()
        invariant
            i <= j <= query@.len(),
            begins_word(query@, i as int),
            forall|k: int| i <= k < j ==> !#[trigger] parts_words(query@, k),
            forall|k: int| i <= k < j ==> !may_vary(#[trigger] query@[k]),
        decreases query@.len() - j,
    {
        if is_parting(query, j) {
            assert forall|m: int| #[trigger] reaches(query@, i as int, m) implies !may_vary(
                query@[m],
            ) by {
                assert(parts_words(query@, j as int));
            }
            return false;
        }
        if is_variant(query[j]) {
            assert(reaches(query@, i as int, j as int));
            return true;
        }
        j += 1;
    }
    false
}

/// Whether a character of `haystack` folds apart to `first`.
fn has_fold(haystack: &Vec<char>, first: char) -> (r: bool)
    ensures
        r == exists|k: int|
            0 <= k < haystack@.len() && folds_apart(#[trigger] haystack@[k]) && fold_of(haystack@[k])
                == first as int,
{
    let mut k: usize = 0;
    while k < haystack.len()
        invariant
            k <= haystack@.len(),
            forall|m: int|
                0 <= m < k ==> !(folds_apart(#[trigger] haystack@[m]) && fold_of(haystack@[m])
                    == first as int),
        decreases haystack@.len() - k,
    {
        if is_folded_apart(haystack[k]) && folded(haystack[k]) == first as u32 {
            return true;
        }
        k += 1;
    }
    false
}

fn is_tripping(query: &Vec<char>, haystack: &Vec<char>) -> (r: bool)
    ensures
        r == trips(query@, haystack@),
{
    let mut i: usize = 0;
    while i < query.len()
        invariant
            i <= query@.len(),
            forall|a: int, k: int|
                0 <= a < i && 0 <= k < haystack@.len() && #[trigger] is_strict(query@, a)
                    && folds_apart(#[trigger] haystack@[k]) ==> fold_of(haystack@[k])
                    != query@[a] as int,
        decreases query@.len() - i,
    {
        if begins_strict(query, i) && has_fold(haystack, query[i]) {
            return true;
        }
        i += 1;
    }
    false
}

/// Whether the matcher takes the texts.
pub fn is_scorable(query: &str, haystack: &str) -> (r: bool)
    ensures
        r == scorable(query@, haystack@),
{
    let q = text::chars_of(query);
    let h = text::chars_of(haystack);
    let (m, n): (usize, usize) = (q.len(), h.len());
    n as u64 <= 0xffff_ffff && (m <= 2048 || (m <= 65536 && n <= 2048)) && !is_tripping(&q, &h)
}

/// `score` is what the matcher gives: no score for a path that does not match. A backslash
/// separates the parts of a path on some platforms only, so the score of a path that holds one is
/// left open.
pub open spec fn is_score(query: Seq<char>, haystack: Seq<char>, score: Option<u32>) -> bool {
    !haystack.contains('\\') ==> score == path_score(query, haystack)
}

/// `nucleo_matcher::Matcher::new` with the default settings for paths. Nothing is claimed of the
/// matcher.
#[verifier::external_body]
fn new_matcher() -> (m: Matcher) {
    Matcher::new(Config::DEFAULT.match_paths())
}

/// `nucleo_matcher::pattern::Pattern::score` of a pattern that `Pattern::parse` read from `query`
/// with smart case and smart normalization, on `haystack`, under the default settings for paths.
/// The score is a function of the two texts, whatever the matcher was used for before.
/// Beyond the texts that it takes, a build that checks for overflow and debug assertions may panic.
#[verifier::external_body]
fn fuzzy_score(matcher: &mut Matcher, query: &str, haystack: &str) -> (score: Option<u32>)
    requires
        scorable(query@, haystack@),
    ensures
        !haystack@.contains('\\') ==> score == path_score(query@, haystack@),
{
    matcher.config = Config::DEFAULT.match_paths();
    let pattern = Pattern::parse(query, CaseMatching::Smart, Normalization::Smart);
    let mut buf = Vec::new();
    pattern.score(Utf32Str::new(haystack, &mut buf), matcher)
}

/// Whether candidate `i` stands before candidate `j`: by the smaller key, then by the position.
pub open spec fn before(keys: Seq<Option<u64>>, i: int, j: int) -> bool {
    keys[i]->0 < keys[j]->0 || (keys[i]->0 == keys[j]->0 && i < j)
}

/// Whether position `i` holds a candidate.
pub open spec fn candidate(keys: Seq<Option<u64>>, i: int) -> bool {
    0 <= i < keys.len() && keys[i] is Some
}

/// `top` lists the first candidates in order, up to `limit` of them: a candidate that is not
/// listed comes after all that are, and only where the list is full.
pub open spec fn is_top(keys: Seq<Option<u64>>, limit: int, top: Seq<usize>) -> bool {
    &&& top.len() <= limit
    &&& forall|a: int| 0 <= a < top.len() ==> candidate(keys, #[trigger] top[a] as int)
    &&& forall|a: int, b: int|
        0 <= a < b < top.len() ==> before(keys, #[trigger] top[a] as int, #[trigger] top[b] as int)
    &&& forall|i: int|
        #[trigger] candidate(keys, i) && !top.contains(i as usize) ==> top.len() == limit && (
        limit > 0 ==> before(keys, top.last() as int, i))
}

/// The key of candidate `i`.
fn key_at(keys: &Vec<Option<u64>>, i: usize) -> (k: u64)
    requires
        candidate(keys@, i as int),
    ensures
        keys@[i as int] == Some(k),
{
    match keys[i] {
        Some(k) => k,
        None => 0,
    }
}

/// The first candidates in order, up to `limit` of them.
pub fn top_candidates(keys: &Vec<Option<u64>>, limit: usize) -> (top: Vec<usize>)
    requires
        0 < limit < usize::MAX,
    ensures
        is_top(keys@, limit as int, top@),
{
    let mut top: Vec<usize> = Vec::new();
    let n = keys.len();
    let mut i: usize = 0;
    while i < n
        invariant
            i <= n,
            n == keys@.len(),
            0 < limit < usize::MAX,
            top@.len() <= limit,
            forall|a: int|
                0 <= a < top@.len() ==> candidate(keys@, #[trigger] top@[a] as int) && top@[a] < i,
            forall|a: int, b: int|
                0 <= a < b < top@.len() ==> before(
                    keys@,
                    #[trigger] top@[a] as int,
                    #[trigger] top@[b] as int,
                ),
            forall|j: int|
                #[trigger] candidate(keys@, j) && j < i && !top@.contains(j as usize)
                    ==> top@.len() == limit && before(keys@, top@.last() as int, j),
        decreases n - i,
    {
        let ghost prev = top@;
        if let Some(key) = keys[i] {
            let mut p: usize = top.len();
            while p > 0 && key_at(keys, top[p - 1]) > key
                invariant
                    top@ == prev,
                    p <= top@.len(),
                    i < n,
                    n == keys@.len(),
                    keys@[i as int] == Some(key),
                    forall|a: int|
                        0 <= a < top@.len() ==> candidate(keys@, #[trigger] top@[a] as int) && top@[a]
                            < i,
                    forall|a: int|
                        p <= a < top@.len() ==> before(keys@, i as int, #[trigger] top@[a] as int),
                decreases p,
            {
                p -= 1;
            }
            assert forall|a: int| 0 <= a < p implies before(
                keys@,
                #[trigger] prev[a] as int,
                i as int,
            ) by {
                if a < p - 1 {
                    assert(before(keys@, prev[a] as int, prev[p - 1] as int));
                }
            }
            assert(!prev.contains(i));
            if p < limit {
                top.insert(p, i);
                let ghost full = top@;
                assert(full =~= prev.insert(p as int, i));
                proof {
                    assert forall|a: int, b: int| 0 <= a < b < full.len() implies before(
                        keys@,
                        #[trigger] full[a] as int,
                        #[trigger] full[b] as int,
                    ) by {
                        let x = if a < p { a } else { a - 1 };
                        let y = if b < p { b } else { b - 1 };
                        if a != p {
                            assert(full[a] == prev[x]);
                        }
                        if b != p {
                            assert(full[b] == prev[y]);
                        }
                    }
                    assert forall|j: usize| #[trigger] prev.contains(j) implies full.contains(j) by {
                        let a = choose|a: int| 0 <= a < prev.len() && prev[a] == j;
                        let b = if a < p { a } else { a + 1 };
                        assert(full[b] == j);
                    }
                    assert(full[p as int] == i);
                    assert(full.contains(i));
                }
                if top.len() > limit {
                    let dropped = top.pop();
                    proof {
                        let gone = full.last();
                        assert(top@ =~= full.drop_last());
                        assert(prev.len() == limit);
                        assert(full[full.len() - 2] == top@.last());
                        assert forall|j: int|
                            #[trigger] candidate(keys@, j) && j < i + 1 && !top@.contains(
                                j as usize,
                            ) implies top@.len() == limit && before(
                            keys@,
                            top@.last() as int,
                            j,
                        ) by {
                            if j == gone {
                            } else {
                                if full.contains(j as usize) {
                                    let a = choose|a: int|
                                        0 <= a < full.len() && full[a] == j as usize;
                                    assert(a < full.len() - 1);
                                    assert(top@[a] == j as usize);
                                    assert(false);
                                }
                                assert(j < i);
                                assert(!prev.contains(j as usize));
                                assert(before(keys@, prev.last() as int, j));
                                if p < prev.len() {
                                    assert(gone == prev.last());
                                    assert(before(keys@, top@.last() as int, gone as int));
                                }
                            }
                        }
                    }
                } else {
                    proof {
                        assert forall|j: int|
                            #[trigger] candidate(keys@, j) && j < i + 1 && !top@.contains(
                                j as usize,
                            ) implies top@.len() == limit && before(
                            keys@,
                            top@.last() as int,
                            j,
                        ) by {
                            assert(j < i);
                            assert(!prev.contains(j as usize));
                        }
                    }
                }
            } else {
                assert(before(keys@, prev.last() as int, i as int));
            }
        } else {
            assert(!candidate(keys@, i as int));
        }
        i += 1;
    }
    assert forall|j: int| #[trigger] candidate(keys@, j) && !top@.contains(j as usize) implies
        top@.len() == limit && (limit > 0 ==> before(keys@, top@.last() as int, j)) by {
        assert(j < n);
    }
    top
}

proof fn lemma_top_position(keys: Seq<Option<u64>>, limit: int, a: Seq<usize>, b: Seq<usize>, p: int)
    requires
        is_top(keys, limit, a),
        is_top(keys, limit, b),
        keys.len() <= usize::MAX,
        0 <= p < a.len(),
        p <= b.len(),
        a.take(p) == b.take(p),
    ensures
        p < b.len(),
        a[p] == b[p],
{
    let x = a[p] as int;
    assert(candidate(keys, x));
    assert forall|q: int| 0 <= q < p implies #[trigger] a[q] == b[q] by {
        assert(a.take(p)[q] == a[q]);
        assert(b.take(p)[q] == b[q]);
    }
    if b.contains(a[p]) {
        let q = choose|q: int| 0 <= q < b.len() && b[q] == a[p];
        if q < p {
            assert(a[q] == b[q]);
            assert(before(keys, a[q] as int, a[p] as int));
            assert(false);
        }
        if q > p {
            assert(before(keys, b[p] as int, b[q] as int));
        }
    } else {
        assert(before(keys, b.last() as int, x));
        assert(p < b.len());
        if p < b.len() - 1 {
            assert(before(keys, b[p] as int, b[b.len() - 1] as int));
        }
    }
    if a[p] != b[p] {
        let y = b[p] as int;
        assert(candidate(keys, y));
        assert(before(keys, y, x));
        if a.contains(b[p]) {
            let r = choose|r: int| 0 <= r < a.len() && a[r] == b[p];
            if r < p {
                assert(a[r] == b[r]);
                assert(before(keys, b[r] as int, b[p] as int));
            } else {
                assert(r > p);
                assert(before(keys, a[p] as int, a[r] as int));
            }
            assert(false);
        } else {
            assert(before(keys, a.last() as int, y));
            if p < a.len() - 1 {
                assert(before(keys, a[p] as int, a[a.len() - 1] as int));
            }
            assert(false);
        }
    }
}

proof fn lemma_top_prefix(keys: Seq<Option<u64>>, limit: int, a: Seq<usize>, b: Seq<usize>, p: int)
    requires
        is_top(keys, limit, a),
        is_top(keys, limit, b),
        keys.len() <= usize::MAX,
        0 <= p <= a.len(),
    ensures
        p <= b.len(),
        a.take(p) == b.take(p),
    decreases p,
{
    if p > 0 {
        lemma_top_prefix(keys, limit, a, b, p - 1);
        lemma_top_position(keys, limit, a, b, p - 1);
        assert(a.take(p) =~= a.take(p - 1).push(a[p - 1]));
        assert(b.take(p) =~= b.take(p - 1).push(b[p - 1]));
    } else {
        assert(a.take(0) =~= b.take(0));
    }
}

/// There is one list of first candidates: the keys and the limit determine it.
pub proof fn law_top_is_unique(keys: Seq<Option<u64>>, limit: int, a: Seq<usize>, b: Seq<usize>)
    requires
        is_top(keys, limit, a),
        is_top(keys, limit, b),
        keys.len() <= usize::MAX,
    ensures
        a == b,
{
    lemma_top_prefix(keys, limit, a, b, a.len() as int);
    lemma_top_prefix(keys, limit, b, a, b.len() as int);
    assert(a.take(a.len() as int) =~= a);
    assert(b.take(a.len() as int) =~= b);
}

/// Keys that rank a higher score first and leave out what has none.
pub open spec fn score_keys(scores: Seq<Option<u32>>) -> Seq<Option<u64>> {
    scores.map_values(
        |s: Option<u32>|
            match s {
                Some(v) => Some((u32::MAX - v) as u64),
                None => None,
            },
    )
}

/// Keys that rank a path with fewer bytes first.
pub open spec fn length_keys(rels: Seq<String>) -> Seq<Option<u64>> {
    rels.map_values(|r: String| Some(vstd::utf8::encode_utf8(r@).len() as u64))
}

/// The files with the highest scores, in order.
pub fn rank_scores(scores: &Vec<Option<u32>>) -> (top: Vec<usize>)
    ensures
        is_top(score_keys(scores@), MAX_RESULTS as int, top@),
{
    let mut keys: Vec<Option<u64>> = Vec::new();
    let mut i: usize = 0;
    let ghost all = score_keys(scores@);
    while i < scores.len()
        invariant
            i <= scores@.len(),
            all == score_keys(scores@),
            keys@ == all.take(i as int),
        decreases scores@.len() - i,
    {
        keys.push(
            match scores[i] {
                Some(v) => Some((u32::MAX - v) as u64),
                None => None,
            },
        );
        i += 1;
        assert(keys@ =~= all.take(i as int));
    }
    assert(keys@ =~= all);
    top_candidates(&keys, MAX_RESULTS)
}

/// The files with the shortest paths, in order.
pub fn rank_lengths(rels: &Vec<String>) -> (top: Vec<usize>)
    ensures
        is_top(length_keys(rels@), MAX_RESULTS as int, top@),
{
    let mut keys: Vec<Option<u64>> = Vec::new();
    let mut i: usize = 0;
    let ghost all = length_keys(rels@);
    while i < rels.len()
        invariant
            i <= rels@.len(),
            all == length_keys(rels@),
            keys@ == all.take(i as int),
        decreases rels@.len() - i,
    {
        let n: usize = rels[i].as_str().as_bytes().len();
        assert(all[i as int] == Some(n as u64));
        keys.push(Some(n as u64));
        i += 1;
        assert(keys@ =~= all.take(i as int));
    }
    assert(keys@ =~= all);
    top_candidates(&keys, MAX_RESULTS)
}

/// The path relative to the project: without the root and the slashes after it.
pub fn rel_of(root: &str, abs: &str) -> (r: String)
    ensures
        r@ == text::relative_to(root@, abs@),
{
    text::rel_of(root, abs)
}

/// A row of the result list.
pub struct QuickOpenRow {
    pub name: String,
    /// Directory of the file, where its relative path has one.
    pub dir: Option<String>,
    pub selected: bool,
}

/// The part of a relative path before its last slash.
pub open spec fn dir_part(rel: Seq<char>) -> Option<Seq<char>> {
    if rel.contains('/') {
        Some(rel.take(text::last_index(rel, '/')))
    } else {
        None
    }
}

/// The quick open panel.
pub struct QuickOpen {
    /// Absolute paths of all files.
    pub files: Vec<String>,
    /// The same paths relative to the project.
    pub rels: Vec<String>,
    /// Offered files, as positions in `files`.
    pub matches: Vec<usize>,
    pub selected: usize,
    pub matcher: Matcher,
    pub filter_seq: u64,
}

impl QuickOpen {
    /// Every offered file is one of the files, and the selection is one of the offered ones.
    pub open spec fn inv(self) -> bool {
        &&& self.files@.len() == self.rels@.len()
        &&& forall|a: int|
            0 <= a < self.matches@.len() ==> (#[trigger] self.matches@[a]) < self.files@.len()
        &&& self.selected < self.matches@.len() || self.selected == 0
    }

    /// Every path can be scored for `query`.
    pub open spec fn takes(self, query: Seq<char>) -> bool {
        text::all_white(query) || forall|i: int|
            0 <= i < self.rels@.len() ==> scorable(query, #[trigger] self.rels@[i]@)
    }

    /// What is offered for `query`: the shortest paths for a blank one, else the best scores.
    pub open spec fn offers(self, query: Seq<char>) -> bool {
        if text::all_white(query) {
            is_top(length_keys(self.rels@), MAX_RESULTS as int, self.matches@)
        } else {
            exists|scores: Seq<Option<u32>>|
                #![trigger score_keys(scores)]
                {
                    &&& scores.len() == self.rels@.len()
                    &&& forall|i: int|
                        0 <= i < scores.len() ==> is_score(
                            query,
                            self.rels@[i]@,
                            #[trigger] scores[i],
                        )
                    &&& is_top(score_keys(scores), MAX_RESULTS as int, self.matches@)
                }
        }
    }

    /// Opens the panel on the files of the project at `project_root`, with nothing typed yet.
    pub fn new(project_root: &str, files: Vec<String>) -> (panel: Self)
        ensures
            panel.inv(),
            panel.files == files,
            panel.rels@.len() == files@.len(),
            forall|i: int|
                0 <= i < files@.len() ==> (#[trigger] panel.rels@[i])@ == text::relative_to(
                    project_root@,
                    files@[i]@,
                ),
            panel.offers(Seq::empty()),
            panel.selected == 0,
            panel.filter_seq == 0,
    {
        let mut rels: Vec<String> = Vec::new();
        let mut i: usize = 0;
        while i < files.len()
            invariant
                i <= files@.len(),
                rels@.len() == i,
                forall|j: int|
                    0 <= j < i ==> (#[trigger] rels@[j])@ == text::relative_to(
                        project_root@,
                        files@[j]@,
                    ),
            decreases files@.len() - i,
        {
            rels.push(rel_of(project_root, files[i].as_str()));
            i += 1;
        }
        let mut this = Self {
            files,
            rels,
            matches: Vec::new(),
            selected: 0,
            matcher: new_matcher(),
            filter_seq: 0,
        };
        proof {
            reveal_strlit("");
            assert(""@ =~= Seq::<char>::empty());
        }
        this.refilter("");
        this
    }

    /// Whether every path can be scored for `query`.
    pub fn can_score(&self, query: &str) -> (r: bool)
        ensures
            r == self.takes(query@),
    {
        if text::is_blank(query) {
            return true;
        }
        let mut i: usize = 0;
        while i < self.rels.len()
            invariant
                i <= self.rels@.len(),
                !text::all_white(query@),
                forall|j: int| 0 <= j < i ==> scorable(query@, #[trigger] self.rels@[j]@),
            decreases self.rels@.len() - i,
        {
            if !is_scorable(query, self.rels[i].as_str()) {
                return false;
            }
            i += 1;
        }
        true
    }

    /// A key was typed: the number of the filter run to start once typing has paused.
    pub fn schedule_refilter(&mut self) -> (seq: u64)
        requires
            old(self).filter_seq < u64::MAX,
        ensures
            *final(self) == (Self { filter_seq: seq, ..*old(self) }),
            seq == old(self).filter_seq + 1,
    {
        self.filter_seq = self.filter_seq + 1;
        self.filter_seq
    }

    /// The pause after filter run `seq` is over: filters, unless a later key was typed meanwhile.
    pub fn fire_refilter(&mut self, seq: u64, query: &str) -> (ran: bool)
        requires
            old(self).inv(),
            old(self).takes(query@),
        ensures
            final(self).inv(),
            ran == (seq == old(self).filter_seq),
            !ran ==> *final(self) == *old(self),
            ran ==> final(self).offers(query@) && final(self).selected == 0,
            final(self).files == old(self).files,
            final(self).rels == old(self).rels,
            final(self).filter_seq == old(self).filter_seq,
    {
        if self.filter_seq == seq {
            self.refilter(query);
            true
        } else {
            false
        }
    }

    /// Filters the files by `query` and selects the first.
    pub fn refilter(&mut self, query: &str)
        requires
            old(self).inv(),
            old(self).takes(query@),
        ensures
            final(self).inv(),
            final(self).offers(query@),
            final(self).selected == 0,
            final(self).files == old(self).files,
            final(self).rels == old(self).rels,
            final(self).filter_seq == old(self).filter_seq,
    {
        proof {
            text::lemma_trimmed_empty(query@);
        }
        if text::is_blank(query) {
            self.matches = rank_lengths(&self.rels);
            self.selected = 0;
            proof {
                let keys = length_keys(self.rels@);
                assert forall|a: int| 0 <= a < self.matches@.len() implies (
                #[trigger] self.matches@[a]) < self.files@.len() by {
                    assert(candidate(keys, self.matches@[a] as int));
                }
            }
        } else {
            let mut scores: Vec<Option<u32>> = Vec::new();
            let n = self.rels.len();
            let mut i: usize = 0;
            while i < n
                invariant
                    i <= n,
                    n == self.rels@.len(),
                    scores@.len() == i,
                    self.rels == old(self).rels,
                    self.files == old(self).files,
                    self.filter_seq == old(self).filter_seq,
                    forall|j: int| 0 <= j < n ==> scorable(query@, #[trigger] self.rels@[j]@),
                    forall|j: int|
                        0 <= j < i ==> is_score(query@, self.rels@[j]@, #[trigger] scores@[j]),
                decreases n - i,
            {
                let score = fuzzy_score(&mut self.matcher, query, self.rels[i].as_str());
                scores.push(score);
                i += 1;
            }
            self.matches = rank_scores(&scores);
            self.selected = 0;
            proof {
                let keys = score_keys(scores@);
                assert forall|a: int| 0 <= a < self.matches@.len() implies (
                #[trigger] self.matches@[a]) < self.files@.len() by {
                    assert(candidate(keys, self.matches@[a] as int));
                }
            }
        }
    }

    /// Moves the selection by `delta` rows, around the ends.
    pub fn move_selection(&mut self, delta: i32)
        requires
            old(self).inv(),
        ensures
            final(self).inv(),
            old(self).matches@.len() == 0 ==> *final(self) == *old(self),
            old(self).matches@.len() > 0 ==> *final(self) == (Self {
                selected: final(self).selected,
                ..*old(self)
            }) && final(self).selected == select::wrapped(
                old(self).selected as int,
                delta as int,
                old(self).matches@.len() as int,
            ),
    {
        if self.matches.len() == 0 {
            return;
        }
        self.selected = select::wrap(self.selected, delta, self.matches.len());
    }

    /// Opens the selected file, where there is one.
    pub fn confirm(&self) -> (r: Option<QuickOpenEvent>)
        requires
            self.inv(),
        ensures
            r is Some <==> self.matches@.len() > 0,
            r matches Some(e) ==> e == QuickOpenEvent::Open(
                self.files@[self.matches@[self.selected as int] as int],
            ),
    {
        if self.selected < self.matches.len() {
            let ix = self.matches[self.selected];
            Some(QuickOpenEvent::Open(self.files[ix].clone()))
        } else {
            None
        }
    }

    /// Selects row `ix` and opens its file.
    pub fn select_and_open(&mut self, ix: usize) -> (r: Option<QuickOpenEvent>)
        requires
            old(self).inv(),
            ix < old(self).matches@.len(),
        ensures
            final(self).inv(),
            *final(self) == (Self { selected: ix, ..*old(self) }),
            r == Some(
                QuickOpenEvent::Open(old(self).files@[old(self).matches@[ix as int] as int]),
            ),
    {
        self.selected = ix;
        self.confirm()
    }

    /// The rows to draw: name and directory of each offered file.
    pub fn render(&self) -> (rows: Vec<QuickOpenRow>)
        requires
            self.inv(),
        ensures
            rows@.len() == self.matches@.len(),
            forall|i: int|
                0 <= i < rows@.len() ==> {
                    let rel = self.rels@[self.matches@[i] as int]@;
                    &&& (#[trigger] rows@[i]).name@ == text::after_last(rel, '/')
                    &&& text::opt_text(rows@[i].dir) == dir_part(rel)
                    &&& rows@[i].selected == (i == self.selected)
                },
    {
        let mut rows: Vec<QuickOpenRow> = Vec::new();
        let mut i: usize = 0;
        while i < self.matches.len()
            invariant
                i <= self.matches@.len(),
                self.inv(),
                rows@.len() == i,
                forall|j: int|
                    0 <= j < i ==> {
                        let rel = self.rels@[self.matches@[j] as int]@;
                        &&& (#[trigger] rows@[j]).name@ == text::after_last(rel, '/')
                        &&& text::opt_text(rows@[j].dir) == dir_part(rel)
                        &&& rows@[j].selected == (j == self.selected)
                    },
            decreases self.matches@.len() - i,
        {
            let rel = self.rels[self.matches[i]].clone();
            let selected = i == self.selected;
            match text::rsplit_once(rel.as_str(), '/') {
                Some((dir, name)) => rows.push(QuickOpenRow { name, dir: Some(dir), selected }),
                None => {
                    proof {
                        text::lemma_last_index(rel@, '/');
                        assert(rel@.skip(0) =~= rel@);
                    }
                    rows.push(QuickOpenRow { name: rel, dir: None, selected })
                },
            }
            i += 1;
        }
        rows
    }
}

/// The files that match best come first: of two that are offered the earlier one has no lower score,
/// and with the same score it is the earlier file. A file without a score is never offered, and one
/// with a score is left out only where 60 others are offered, none of them with a lower score.
pub proof fn law_the_best_scores_come_first(scores: Vec<Option<u32>>, top: Vec<usize>, a: int, b: int, i: usize)
    requires
        call_ensures(rank_scores, (&scores,), top),
        0 <= a < b < top@.len(),
        i < scores@.len(),
    ensures
        top@[a] < scores@.len() && top@[b] < scores@.len(),
        scores@[top@[a] as int] is Some && scores@[top@[b] as int] is Some,
        scores@[top@[a] as int]->0 >= scores@[top@[b] as int]->0,
        scores@[top@[a] as int]->0 == scores@[top@[b] as int]->0 ==> top@[a] < top@[b],
        top@.len() <= 60,
        scores@[i as int] is Some && !top@.contains(i) ==> top@.len() == 60
            && scores@[top@[a] as int]->0 >= scores@[i as int]->0,
{
    let keys = score_keys(scores@);
    assert(candidate(keys, top@[a] as int));
    assert(candidate(keys, top@[b] as int));
    assert(before(keys, top@[a] as int, top@[b] as int));
    assert(keys.len() == scores@.len());
    if scores@[i as int] is Some && !top@.contains(i) {
        assert(candidate(keys, i as int));
        assert(before(keys, top@.last() as int, i as int));
        if a < top@.len() - 1 {
            assert(before(keys, top@[a] as int, top@[top@.len() - 1] as int));
        }
    }
}

/// Every file with a score is offered while there are no more than 60.
pub proof fn law_few_matches_are_all_offered(scores: Vec<Option<u32>>, top: Vec<usize>, i: usize)
    requires
        call_ensures(rank_scores, (&scores,), top),
        i < scores@.len(),
        top@.len() < 60,
    ensures
        top@.contains(i) <==> scores@[i as int] is Some,
{
    let keys = score_keys(scores@);
    assert(keys.len() == scores@.len());
    if scores@[i as int] is Some {
        assert(candidate(keys, i as int));
    }
    if top@.contains(i) {
        let k = top@.index_of(i);
        assert(candidate(keys, top@[k] as int));
    }
}

/// Before anything is typed the shortest paths come first.
pub proof fn law_short_paths_come_first(rels: Vec<String>, top: Vec<usize>, a: int, b: int)
    requires
        call_ensures(rank_lengths, (&rels,), top),
        0 <= a < b < top@.len(),
        forall|i: int|
            0 <= i < rels@.len() ==> vstd::utf8::encode_utf8((#[trigger] rels@[i])@).len() <= u64::MAX,
    ensures
        top@[a] < rels@.len() && top@[b] < rels@.len(),
        vstd::utf8::encode_utf8(rels@[top@[a] as int]@).len() <= vstd::utf8::encode_utf8(
            rels@[top@[b] as int]@,
        ).len(),
        top@[a] != top@[b],
        top@.len() <= 60,
{
    let keys = length_keys(rels@);
    assert(candidate(keys, top@[a] as int));
    assert(candidate(keys, top@[b] as int));
    assert(before(keys, top@[a] as int, top@[b] as int));
    assert(keys[top@[a] as int] == Some(vstd::utf8::encode_utf8(rels@[top@[a] as int]@).len() as u64));
    assert(keys[top@[b] as int] == Some(vstd::utf8::encode_utf8(rels@[top@[b] as int]@).len() as u64));
}

/// After a key, what is offered matches what was typed: of two paths without a backslash the earlier
/// one has no lower score.
pub proof fn law_what_is_offered_matches(q: &mut QuickOpen, query: &str, a: int, b: int)
    requires
        old(q).inv(),
        old(q).takes(query@),
        call_ensures(QuickOpen::refilter, (q, query), ()),
        !text::all_white(query@),
        0 <= a < b < final(q).matches@.len(),
        !final(q).rels@[final(q).matches@[a] as int]@.contains('\\'),
        !final(q).rels@[final(q).matches@[b] as int]@.contains('\\'),
    ensures
        ({
            let x = path_score(query@, final(q).rels@[final(q).matches@[a] as int]@);
            let y = path_score(query@, final(q).rels@[final(q).matches@[b] as int]@);
            x is Some && y is Some && x->0 >= y->0
        }),
        final(q).selected == 0,
        final(q).matches@.len() <= 60,
{
    let p = *final(q);
    assert(p.offers(query@));
    let scores = choose|scores: Seq<Option<u32>>|
        #![trigger score_keys(scores)]
        {
            &&& scores.len() == p.rels@.len()
            &&& forall|i: int|
                0 <= i < scores.len() ==> is_score(query@, p.rels@[i]@, #[trigger] scores[i])
            &&& is_top(score_keys(scores), MAX_RESULTS as int, p.matches@)
        };
    let keys = score_keys(scores);
    let (i, j) = (p.matches@[a] as int, p.matches@[b] as int);
    assert(candidate(keys, i) && candidate(keys, j));
    assert(before(keys, i, j));
    assert(is_score(query@, p.rels@[i]@, scores[i]));
    assert(is_score(query@, p.rels@[j]@, scores[j]));
}

/// A row tells the path in two parts: the folder, a slash and the name are the path below the project.
pub proof fn law_rows_tell_folder_and_name(q: QuickOpen, rows: Vec<QuickOpenRow>, i: int)
    requires
        q.inv(),
        call_ensures(QuickOpen::render, (&q,), rows),
        0 <= i < rows@.len(),
    ensures
        rows@.len() == q.matches@.len(),
        ({
            let rel = q.rels@[q.matches@[i] as int]@;
            &&& !rows@[i].name@.contains('/')
            &&& rows@[i].dir matches Some(d) ==> rel == d@ + seq!['/'] + rows@[i].name@
            &&& rows@[i].dir is None ==> rel == rows@[i].name@
        }),
        rows@[i].selected <==> i == q.selected,
{
    let rel = q.rels@[q.matches@[i] as int]@;
    text::lemma_last_index(rel, '/');
    let k = text::last_index(rel, '/');
    assert(rows@[i].name@ == rel.skip(k + 1));
    if rows@[i].name@.contains('/') {
        let j = rows@[i].name@.index_of('/');
        assert(rel[k + 1 + j] == '/');
    }
    if rel.contains('/') {
        assert(rel =~= rel.take(k) + seq!['/'] + rel.skip(k + 1));
    } else {
        assert(rel.skip(0) =~= rel);
    }
}

/// Return opens the file of the row that is selected.
pub proof fn law_return_opens_the_selected_file(q: QuickOpen, r: Option<QuickOpenEvent>)
    requires
        q.inv(),
        call_ensures(QuickOpen::confirm, (&q,), r),
    ensures
        r is None <==> q.matches@.len() == 0,
        r matches Some(QuickOpenEvent::Open(p)) ==> q.selected < q.matches@.len() && p
            == q.files@[q.matches@[q.selected as int] as int],
{
}

/// The selection moves one row down or up, from the last row to the first and back, and nothing else
/// changes.
pub proof fn law_the_selection_moves_by_one(p: &mut QuickOpen, q: &mut QuickOpen)
    requires
        old(p).inv(),
        old(q).inv(),
        old(p).matches@.len() > 0,
        old(q).matches@.len() > 0,
        call_ensures(QuickOpen::move_selection, (p, 1i32), ()),
        call_ensures(QuickOpen::move_selection, (q, -1i32), ()),
    ensures
        old(p).selected + 1 < old(p).matches@.len() ==> final(p).selected == old(p).selected + 1,
        old(p).selected + 1 == old(p).matches@.len() ==> final(p).selected == 0,
        old(q).selected > 0 ==> final(q).selected == old(q).selected - 1,
        old(q).selected == 0 ==> final(q).selected == old(q).matches@.len() - 1,
        final(p).matches == old(p).matches,
{
    select::law_a_step_is_undone_by_the_opposite_one(
        old(p).selected as int,
        1,
        old(p).matches@.len() as int,
    );
    select::law_a_step_is_undone_by_the_opposite_one(
        old(q).selected as int,
        -1,
        old(q).matches@.len() as int,
    );
}

} // verus!
