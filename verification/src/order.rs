//! Ordering texts by their characters.
use vstd::prelude::*;

use crate::text;

verus! {

/// Whether `a` comes before `b` or is the same: the first character in which they differ decides,
/// and a text comes before its continuations.
pub open spec fn not_after(a: Seq<char>, b: Seq<char>) -> bool
    decreases a.len(),
{
    if a.len() == 0 {
        true
    } else if b.len() == 0 {
        false
    } else {
        a[0] < b[0] || (a[0] == b[0] && not_after(a.drop_first(), b.drop_first()))
    }
}

/// Whether texts stand in ascending order.
pub open spec fn ascending(t: Seq<Seq<char>>) -> bool {
    forall|i: int, j: int|
        #![trigger t[i], t[j]]
        0 <= i <= j < t.len() ==> not_after(t[i], t[j])
}

/// Any two texts can be ordered, and only equal texts can be ordered both ways.
pub proof fn law_order_is_total(a: Seq<char>, b: Seq<char>)
    ensures
        not_after(a, b) || not_after(b, a),
        not_after(a, b) && not_after(b, a) ==> a == b,
        not_after(a, a),
    decreases a.len(),
{
    if a.len() > 0 {
        law_order_is_total(a.drop_first(), a.drop_first());
    }
    if a.len() > 0 && b.len() > 0 {
        law_order_is_total(a.drop_first(), b.drop_first());
        if a[0] == b[0] && a.drop_first() == b.drop_first() {
            assert(a =~= seq![a[0]] + a.drop_first());
            assert(b =~= seq![b[0]] + b.drop_first());
        }
    } else if a.len() == 0 && b.len() == 0 {
        assert(a =~= b);
    }
}

/// The order carries over.
pub proof fn law_order_is_transitive(a: Seq<char>, b: Seq<char>, c: Seq<char>)
    requires
        not_after(a, b),
        not_after(b, c),
    ensures
        not_after(a, c),
    decreases a.len(),
{
    if a.len() > 0 && a[0] == b[0] && b[0] == c[0] {
        law_order_is_transitive(a.drop_first(), b.drop_first(), c.drop_first());
    }
}

/// Whether `a` comes before `b` or is the same.
pub fn le(a: &str, b: &str) -> (r: bool)
    ensures
        r == not_after(a@, b@),
{
    let x = text::chars_of(a);
    let y = text::chars_of(b);
    let mut i: usize = 0;
    assert(x@.skip(0) =~= x@);
    assert(y@.skip(0) =~= y@);
    while i < x.len()
        invariant
            i <= x@.len(),
            i <= y@.len(),
            x@ == a@,
            y@ == b@,
            not_after(x@, y@) == not_after(x@.skip(i as int), y@.skip(i as int)),
        decreases x@.len() - i,
    {
        if i >= y.len() {
            return false;
        }
        assert(x@.skip(i as int)[0] == x@[i as int]);
        assert(y@.skip(i as int)[0] == y@[i as int]);
        if x[i] < y[i] {
            return true;
        }
        if x[i] > y[i] {
            return false;
        }
        assert(x@.skip(i as int).drop_first() =~= x@.skip(i + 1));
        assert(y@.skip(i as int).drop_first() =~= y@.skip(i + 1));
        i += 1;
    }
    true
}

/// The same texts with the same counts.
pub open spec fn same_texts(a: Seq<Seq<char>>, b: Seq<Seq<char>>) -> bool {
    a.to_multiset() == b.to_multiset()
}

fn merge(a: &Vec<String>, b: &Vec<String>) -> (r: Vec<String>)
    requires
        ascending(text::texts(a@)),
        ascending(text::texts(b@)),
    ensures
        ascending(text::texts(r@)),
        same_texts(text::texts(r@), text::texts(a@) + text::texts(b@)),
{
    let ghost ta = text::texts(a@);
    let ghost tb = text::texts(b@);
    let mut out: Vec<String> = Vec::new();
    let mut i: usize = 0;
    let mut j: usize = 0;
    proof {
        broadcast use vstd::seq_lib::group_to_multiset_ensures;

        assert(text::texts(out@) =~= Seq::<Seq<char>>::empty());
        assert(ta.take(0) =~= Seq::<Seq<char>>::empty());
        assert(tb.take(0) =~= Seq::<Seq<char>>::empty());
        assert(text::texts(out@).to_multiset() =~= ta.take(0).to_multiset().add(
            tb.take(0).to_multiset(),
        ));
    }
    while i < a.len() || j < b.len()
        invariant
            i <= a@.len(),
            j <= b@.len(),
            ta == text::texts(a@),
            tb == text::texts(b@),
            ascending(ta),
            ascending(tb),
            ascending(text::texts(out@)),
            forall|k: int, m: int|
                #![trigger text::texts(out@)[k], ta[m]]
                0 <= k < out@.len() && i <= m < ta.len() ==> not_after(
                    text::texts(out@)[k],
                    ta[m],
                ),
            forall|k: int, m: int|
                #![trigger text::texts(out@)[k], tb[m]]
                0 <= k < out@.len() && j <= m < tb.len() ==> not_after(
                    text::texts(out@)[k],
                    tb[m],
                ),
            text::texts(out@).to_multiset() == ta.take(i as int).to_multiset().add(
                tb.take(j as int).to_multiset(),
            ),
        decreases a@.len() - i + b@.len() - j,
    {
        let ghost prev = text::texts(out@);
        let from_a = if i >= a.len() {
            false
        } else if j >= b.len() {
            true
        } else {
            assert(ta[i as int] == a@[i as int]@ && tb[j as int] == b@[j as int]@);
            le(a[i].as_str(), b[j].as_str())
        };
        if from_a {
            let ghost t = ta[i as int];
            out.push(a[i].clone());
            proof {
                broadcast use vstd::seq_lib::group_to_multiset_ensures;

                assert(text::texts(out@) =~= prev.push(t));
                assert(ta.take(i + 1) =~= ta.take(i as int).push(t));
                assert(text::texts(out@).to_multiset() =~= ta.take(
                    i + 1,
                ).to_multiset().add(tb.take(j as int).to_multiset()));
                if j < b@.len() {
                    assert forall|m: int| j <= m < tb.len() implies not_after(
                        t,
                        #[trigger] tb[m],
                    ) by {
                        law_order_is_transitive(t, tb[j as int], tb[m]);
                    }
                }
                law_order_is_total(t, t);
            }
            i += 1;
        } else {
            let ghost t = tb[j as int];
            out.push(b[j].clone());
            proof {
                broadcast use vstd::seq_lib::group_to_multiset_ensures;

                assert(text::texts(out@) =~= prev.push(t));
                assert(tb.take(j + 1) =~= tb.take(j as int).push(t));
                assert(text::texts(out@).to_multiset() =~= ta.take(
                    i as int,
                ).to_multiset().add(tb.take(j + 1).to_multiset()));
                if i < a@.len() {
                    law_order_is_total(ta[i as int], t);
                    assert forall|m: int| i <= m < ta.len() implies not_after(
                        t,
                        #[trigger] ta[m],
                    ) by {
                        law_order_is_transitive(t, ta[i as int], ta[m]);
                    }
                }
                law_order_is_total(t, t);
            }
            j += 1;
        }
    }
    proof {
        assert(ta.take(ta.len() as int) =~= ta);
        assert(tb.take(tb.len() as int) =~= tb);
        vstd::seq_lib::lemma_multiset_commutative(ta, tb);
    }
    out
}

fn sort_part(v: &Vec<String>, from: usize, to: usize) -> (r: Vec<String>)
    requires
        from <= to <= v@.len(),
    ensures
        ascending(text::texts(r@)),
        same_texts(text::texts(r@), text::texts(v@).subrange(from as int, to as int)),
    decreases to - from,
{
    let ghost all = text::texts(v@);
    if to - from <= 1 {
        let mut out: Vec<String> = Vec::new();
        if from < to {
            out.push(v[from].clone());
            proof {
                law_order_is_total(v@[from as int]@, v@[from as int]@);
            }
        }
        assert(text::texts(out@) =~= all.subrange(from as int, to as int));
        return out;
    }
    let mid: usize = from + (to - from) / 2;
    let a = sort_part(v, from, mid);
    let b = sort_part(v, mid, to);
    let r = merge(&a, &b);
    proof {
        let x = all.subrange(from as int, mid as int);
        let y = all.subrange(mid as int, to as int);
        assert(all.subrange(from as int, to as int) =~= x + y);
        vstd::seq_lib::lemma_multiset_commutative(x, y);
        vstd::seq_lib::lemma_multiset_commutative(text::texts(a@), text::texts(b@));
    }
    r
}

/// The texts in ascending order.
pub fn sorted(v: &Vec<String>) -> (r: Vec<String>)
    ensures
        ascending(text::texts(r@)),
        same_texts(text::texts(r@), text::texts(v@)),
{
    let n = v.len();
    assert(text::texts(v@).subrange(0, n as int) =~= text::texts(v@));
    sort_part(v, 0, n)
}

/// The first character in which two texts differ orders them, and a text comes before its
/// continuations.
pub proof fn law_the_first_difference_orders(common: Seq<char>, a: Seq<char>, b: Seq<char>)
    requires
        b.len() > 0,
        a.len() > 0 ==> a[0] < b[0],
    ensures
        not_after(common + a, common + b),
        !not_after(common + b, common + a),
    decreases common.len(),
{
    if common.len() == 0 {
        assert(common + a =~= a);
        assert(common + b =~= b);
    } else {
        let rest = common.drop_first();
        law_the_first_difference_orders(rest, a, b);
        assert((common + a).drop_first() =~= rest + a);
        assert((common + b).drop_first() =~= rest + b);
        assert((common + a)[0] == common[0]);
        assert((common + b)[0] == common[0]);
    }
}

/// Sorting loses no text and adds none, and puts each neighbour in order.
pub proof fn law_sorting_keeps_the_texts(v: Vec<String>, r: Vec<String>, i: int, t: Seq<char>)
    requires
        call_ensures(sorted, (&v,), r),
        0 <= i,
        i + 1 < r@.len(),
    ensures
        not_after(r@[i]@, r@[i + 1]@),
        text::texts(r@).to_multiset().count(t) == text::texts(v@).to_multiset().count(t),
        r@.len() == v@.len(),
{
    let a = text::texts(r@);
    let b = text::texts(v@);
    assert(a[i] == r@[i]@);
    assert(a[i + 1] == r@[i + 1]@);
    a.to_multiset_ensures();
    b.to_multiset_ensures();
}

} // verus!
