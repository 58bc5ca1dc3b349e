//! Moving a selection through a list that wraps around at both ends.
use vstd::arithmetic::div_mod::lemma_fundamental_div_mod_converse;
use vstd::prelude::*;

verus! {

/// The position `delta` steps from `selected` in a circle of `len` positions.
pub open spec fn wrapped(selected: int, delta: int, len: int) -> int {
    (selected + delta) % len
}

/// The position `delta` steps from `selected` in a circle of `len` positions.
pub fn wrap(selected: usize, delta: i32, len: usize) -> (r: usize)
    requires
        len > 0,
    ensures
        r == wrapped(selected as int, delta as int, len as int),
        r < len,
{
    let m = selected % len;
    proof {
        vstd::arithmetic::div_mod::lemma_fundamental_div_mod(selected as int, len as int);
        let q = (selected as int) / (len as int);
        if delta >= 0 {
            let e = (delta as int) % (len as int);
            let p = (delta as int) / (len as int);
            vstd::arithmetic::div_mod::lemma_fundamental_div_mod(delta as int, len as int);
            if m + e < len {
                assert(selected + delta == (q + p) * (len as int) + (m + e)) by (nonlinear_arith)
                    requires
                        selected == (len as int) * q + m,
                        delta == (len as int) * p + e,
                ;
                lemma_fundamental_div_mod_converse(selected + delta, len as int, q + p, m + e);
            } else {
                assert(selected + delta == (q + p + 1) * (len as int) + (m + e - len))
                    by (nonlinear_arith)
                    requires
                        selected == (len as int) * q + m,
                        delta == (len as int) * p + e,
                ;
                lemma_fundamental_div_mod_converse(
                    selected + delta,
                    len as int,
                    q + p + 1,
                    m + e - len,
                );
            }
        } else {
            let d = -(delta as int);
            let e = d % (len as int);
            let p = d / (len as int);
            vstd::arithmetic::div_mod::lemma_fundamental_div_mod(d, len as int);
            if m >= e {
                assert(selected + delta == (q - p) * (len as int) + (m - e)) by (nonlinear_arith)
                    requires
                        selected == (len as int) * q + m,
                        -delta == (len as int) * p + e,
                ;
                lemma_fundamental_div_mod_converse(selected + delta, len as int, q - p, m - e);
            } else {
                assert(selected + delta == (q - p - 1) * (len as int) + (m - e + len))
                    by (nonlinear_arith)
                    requires
                        selected == (len as int) * q + m,
                        -delta == (len as int) * p + e,
                ;
                lemma_fundamental_div_mod_converse(
                    selected + delta,
                    len as int,
                    q - p - 1,
                    m - e + len,
                );
            }
        }
    }
    if delta >= 0 {
        let e: usize = ((delta as u64) % (len as u64)) as usize;
        if e < len - m {
            m + e
        } else {
            e - (len - m)
        }
    } else {
        let d: u64 = (-(delta as i64)) as u64;
        let e: usize = (d % (len as u64)) as usize;
        if m >= e {
            m - e
        } else {
            len - (e - m)
        }
    }
}

/// Any number of steps one way and the same number back end where they began, and lead nowhere but
/// to a position of the circle.
pub proof fn law_there_and_back(selected: int, delta: int, len: int)
    requires
        0 <= selected < len,
    ensures
        0 <= wrapped(selected, delta, len) < len,
        wrapped(wrapped(selected, delta, len), -delta, len) == selected,
{
    let m = (selected + delta) % len;
    let q = (selected + delta) / len;
    vstd::arithmetic::div_mod::lemma_fundamental_div_mod(selected + delta, len);
    assert(m - delta == (-q) * len + selected) by (nonlinear_arith)
        requires
            selected + delta == len * q + m,
    ;
    lemma_fundamental_div_mod_converse(m - delta, len, -q, selected);
}

/// One step down goes to the next entry and from the last one to the first; one step up goes the
/// other way.
pub proof fn law_one_step_goes_to_the_neighbour(selected: usize, len: usize, down: usize, up: usize)
    requires
        selected < len,
        call_ensures(wrap, (selected, 1i32, len), down),
        call_ensures(wrap, (selected, -1i32, len), up),
    ensures
        down == (if selected + 1 < len {
            selected + 1
        } else {
            0
        }),
        up == (if selected > 0 {
            selected - 1
        } else {
            len - 1
        }),
{
    let n = len as int;
    if selected + 1 < n {
        vstd::arithmetic::div_mod::lemma_small_mod((selected + 1) as nat, len as nat);
    } else {
        assert((selected + 1) % n == 0) by {
            vstd::arithmetic::div_mod::lemma_mod_self_0(n);
        }
    }
    if selected > 0 {
        vstd::arithmetic::div_mod::lemma_small_mod((selected - 1) as nat, len as nat);
    } else {
        vstd::arithmetic::div_mod::lemma_mod_add_multiples_vanish(-1, n);
        vstd::arithmetic::div_mod::lemma_small_mod((n - 1) as nat, len as nat);
    }
}

/// A step is undone by the opposite one, and a step in a list ends in the list.
pub proof fn law_a_step_is_undone_by_the_opposite_one(selected: int, delta: int, len: int)
    requires
        0 <= selected < len,
    ensures
        0 <= wrapped(selected, delta, len) < len,
        wrapped(wrapped(selected, delta, len), -delta, len) == selected,
        selected + 1 < len ==> wrapped(selected, 1, len) == selected + 1,
        selected + 1 == len ==> wrapped(selected, 1, len) == 0,
        selected > 0 ==> wrapped(selected, -1, len) == selected - 1,
        selected == 0 ==> wrapped(selected, -1, len) == len - 1,
{
    vstd::arithmetic::div_mod::lemma_mod_bound(selected + delta, len);
    vstd::arithmetic::div_mod::lemma_add_mod_noop(selected + delta, -delta, len);
    vstd::arithmetic::div_mod::lemma_add_mod_noop_right(-delta, selected + delta, len);
    vstd::arithmetic::div_mod::lemma_small_mod(selected as nat, len as nat);
    assert(((selected + delta) % len - delta) % len == (selected + delta - delta) % len) by {
        vstd::arithmetic::div_mod::lemma_sub_mod_noop_right(-delta, -(selected + delta), len);
        vstd::arithmetic::div_mod::lemma_add_mod_noop_right(-delta, selected + delta, len);
    }
    if selected + 1 < len {
        vstd::arithmetic::div_mod::lemma_small_mod((selected + 1) as nat, len as nat);
    } else {
        vstd::arithmetic::div_mod::lemma_mod_self_0(len);
    }
    if selected > 0 {
        vstd::arithmetic::div_mod::lemma_small_mod((selected - 1) as nat, len as nat);
    } else {
        vstd::arithmetic::div_mod::lemma_mod_add_multiples_vanish(-1, len);
        vstd::arithmetic::div_mod::lemma_small_mod((len - 1) as nat, len as nat);
    }
}

} // verus!
