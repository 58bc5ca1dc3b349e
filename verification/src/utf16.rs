//! Positions in a text counted in UTF-16 code units, as input methods count them.
use vstd::prelude::*;
use vstd::utf8::*;

use crate::text;

verus! {

/// How many code units a character takes.
pub open spec fn units(c: char) -> nat {
    if (c as u32) < 0x10000 {
        1
    } else {
        2
    }
}

/// How many code units a text takes.
pub open spec fn units_of(s: Seq<char>) -> nat
    decreases s.len(),
{
    if s.len() == 0 {
        0
    } else {
        units_of(s.drop_last()) + units(s.last())
    }
}

/// The character position for the unit position `off`: after as many characters as lie wholly
/// before it.
pub open spec fn is_position(s: Seq<char>, off: int, k: int) -> bool {
    &&& 0 <= k <= s.len()
    &&& units_of(s.take(k)) <= off
    &&& (k < s.len() ==> units_of(s.take(k + 1)) > off)
}

/// A longer prefix takes more units.
pub proof fn lemma_units_grow(s: Seq<char>, j: int, k: int)
    requires
        0 <= j < k <= s.len(),
    ensures
        units_of(s.take(j)) + (k - j) <= units_of(s.take(k)),
    decreases k - j,
{
    assert(s.take(k).drop_last() =~= s.take(k - 1));
    if j < k - 1 {
        lemma_units_grow(s, j, k - 1);
    }
}

/// Whether the text between two unit positions is a range: it does not end before it starts.
pub open spec fn is_range(s: Seq<char>, start: int, end: int) -> bool {
    forall|a: int, b: int| #[trigger]
        is_position(s, start, a) && #[trigger] is_position(s, end, b) ==> a <= b
}

proof fn lemma_units_first(s: Seq<char>)
    requires
        s.len() > 0,
    ensures
        units_of(s) == units(s[0]) + units_of(s.drop_first()),
    decreases s.len(),
{
    if s.len() == 1 {
        assert(s.drop_last() =~= Seq::<char>::empty());
        assert(s.drop_first() =~= Seq::<char>::empty());
    } else {
        lemma_units_first(s.drop_last());
        assert(s.drop_last().drop_first() =~= s.drop_first().drop_last());
    }
}

/// A text takes no more UTF-16 units than bytes.
proof fn lemma_units_in_bytes(s: Seq<char>)
    ensures
        units_of(s) <= encode_utf8(s).len(),
    decreases s.len(),
{
    if s.len() > 0 {
        lemma_units_first(s);
        lemma_units_in_bytes(s.drop_first());
    }
}

/// How many code units a text takes.
pub fn utf16_len(s: &str) -> (n: usize)
    ensures
        n == units_of(s@),
{
    let bytes: usize = s.as_bytes().len();
    proof {
        lemma_units_in_bytes(s@);
    }
    let cs = text::chars_of(s);
    let mut n: usize = 0;
    let mut i: usize = 0;
    assert(cs@.take(0) =~= Seq::<char>::empty());
    while i < cs.len()
        invariant
            i <= cs@.len(),
            cs@ == s@,
            units_of(cs@) <= bytes,
            n == units_of(cs@.take(i as int)),
        decreases cs@.len() - i,
    {
        assert(cs@.take(i + 1).drop_last() =~= cs@.take(i as int));
        proof {
            assert(cs@.take(cs@.len() as int) =~= cs@);
            if i + 1 < cs@.len() {
                lemma_units_grow(cs@, i + 1, cs@.len() as int);
            }
        }
        n += if (cs[i] as u32) < 0x10000 {
            1
        } else {
            2
        };
        i += 1;
    }
    assert(cs@.take(cs@.len() as int) =~= cs@);
    n
}

/// The character position for a unit position.
pub fn position(s: &str, off: usize) -> (k: usize)
    ensures
        is_position(s@, off as int, k as int),
{
    let cs = text::chars_of(s);
    let mut n: usize = 0;
    let mut i: usize = 0;
    assert(cs@.take(0) =~= Seq::<char>::empty());
    while i < cs.len()
        invariant
            i <= cs@.len(),
            cs@ == s@,
            n == units_of(cs@.take(i as int)),
            n <= off,
        decreases cs@.len() - i,
    {
        assert(cs@.take(i + 1).drop_last() =~= cs@.take(i as int));
        let step: usize = if (cs[i] as u32) < 0x10000 {
            1
        } else {
            2
        };
        if step > off - n {
            return i;
        }
        n += step;
        i += 1;
    }
    i
}

/// Whether the text between two unit positions is a range.
pub fn is_range_in(s: &str, start: usize, end: usize) -> (r: bool)
    ensures
        r == is_range(s@, start as int, end as int),
{
    let a = position(s, start);
    let b = position(s, end);
    proof {
        assert forall|j: int, k: int| #[trigger]
            is_position(s@, start as int, j) && #[trigger] is_position(
                s@,
                end as int,
                k,
            ) implies j == a && k == b by {
            law_positions_keep_their_order(s@, start as int, start as int, j, a as int);
            law_positions_keep_their_order(s@, end as int, end as int, k, b as int);
        }
    }
    a <= b
}

/// A unit position determines its character position, and a later one never comes before it.
pub proof fn law_positions_keep_their_order(s: Seq<char>, a: int, b: int, j: int, k: int)
    requires
        is_position(s, a, j),
        is_position(s, b, k),
        a <= b,
    ensures
        j <= k,
        a == b ==> j == k,
{
    if k < j {
        if k + 1 < j {
            lemma_units_grow(s, k + 1, j);
        }
    }
    if j < k && a == b {
        if j + 1 < k {
            lemma_units_grow(s, j + 1, k);
        }
    }
}

/// Characters of the basic plane count one unit, the others two, and texts add up.
pub proof fn law_units_add_up(a: Seq<char>, b: Seq<char>)
    ensures
        units_of(a + b) == units_of(a) + units_of(b),
        b.len() == 1 && (b[0] as u32) <= 0xffff ==> units_of(b) == 1,
        b.len() == 1 && (b[0] as u32) > 0xffff ==> units_of(b) == 2,
    decreases b.len(),
{
    if b.len() == 0 {
        assert(a + b =~= a);
    } else {
        assert((a + b).drop_last() =~= a + b.drop_last());
        assert((a + b).last() == b.last());
        law_units_add_up(a, b.drop_last());
        if b.len() == 1 {
            assert(b.drop_last() =~= Seq::<char>::empty());
            assert(b.last() == b[0]);
            assert(units_of(b.drop_last()) == 0);
        }
    }
}

/// A character stands where the units of what comes before it end, and a place within a character is
/// the place of that character.
pub proof fn law_a_character_follows_the_units_before_it(s: &str, off: usize, k: usize, j: int)
    requires
        call_ensures(position, (s, off), k),
        0 <= j <= s@.len(),
        units_of(s@.take(j)) <= off,
        j < s@.len() ==> off < units_of(s@.take(j)) + units_of(s@.subrange(j, j + 1)),
    ensures
        k == j,
{
    if j < s@.len() {
        law_units_add_up(s@.take(j), s@.subrange(j, j + 1));
        assert(s@.take(j) + s@.subrange(j, j + 1) =~= s@.take(j + 1));
    }
    assert(is_position(s@, off as int, j));
    law_positions_keep_their_order(s@, off as int, off as int, k as int, j);
}

} // verus!
