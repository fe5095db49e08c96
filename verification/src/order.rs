//! Stable sorting, one insertion at a time.

use vstd::prelude::*;

verus! {

/// `s` with `t` behind the last element that it does not go ahead of.
pub open spec fn placed<A>(s: Seq<A>, t: A, ahead: spec_fn(A, A) -> bool) -> Seq<A>
    decreases s.len(),
{
    if s.len() > 0 && ahead(t, s.last()) {
        placed(s.drop_last(), t, ahead).push(s.last())
    } else {
        s.push(t)
    }
}

/// The elements of `s` in order, equals as they stood.
pub open spec fn in_order<A>(s: Seq<A>, ahead: spec_fn(A, A) -> bool) -> Seq<A>
    decreases s.len(),
{
    if s.len() == 0 {
        s
    } else {
        placed(in_order(s.drop_last(), ahead), s.last(), ahead)
    }
}

/// Whether no element goes ahead of an earlier one.
pub open spec fn is_in_order<A>(s: Seq<A>, ahead: spec_fn(A, A) -> bool) -> bool {
    forall|i: int, j: int| 0 <= i < j < s.len() ==> !ahead(#[trigger] s[j], #[trigger] s[i])
}

/// Whether "goes ahead of" is an order in which some elements may tie.
pub open spec fn is_weak_order<A>(ahead: spec_fn(A, A) -> bool) -> bool {
    &&& forall|a: A, b: A| #[trigger] ahead(a, b) ==> !ahead(b, a)
    &&& forall|a: A, b: A, c: A|
        !(#[trigger] ahead(a, b)) && !(#[trigger] ahead(b, c)) ==> !ahead(a, c)
}

/// The place of an element, by position.
pub proof fn lemma_placed_at<A>(s: Seq<A>, t: A, ahead: spec_fn(A, A) -> bool, p: int)
    requires
        0 <= p <= s.len(),
        p > 0 ==> !ahead(t, s[p - 1]),
        forall|q: int| p <= q < s.len() ==> ahead(t, #[trigger] s[q]),
    ensures
        placed(s, t, ahead) == s.insert(p, t),
    decreases s.len(),
{
    if p < s.len() {
        assert(ahead(t, s[s.len() - 1]));
        lemma_placed_at(s.drop_last(), t, ahead, p);
        assert(s.drop_last().insert(p, t).push(s.last()) =~= s.insert(p, t));
    } else {
        assert(s.push(t) =~= s.insert(p, t));
    }
}

proof fn lemma_placed<A>(s: Seq<A>, t: A, ahead: spec_fn(A, A) -> bool)
    requires
        is_weak_order(ahead),
        is_in_order(s, ahead),
    ensures
        is_in_order(placed(s, t, ahead), ahead),
        placed(s, t, ahead).to_multiset() == s.to_multiset().insert(t),
    decreases s.len(),
{
    broadcast use vstd::seq_lib::group_to_multiset_ensures;

    let r = placed(s, t, ahead);
    if s.len() > 0 && ahead(t, s.last()) {
        let init = s.drop_last();
        let inner = placed(init, t, ahead);
        lemma_placed(init, t, ahead);
        assert(init.push(s.last()) =~= s);
        assert forall|i: int, j: int| 0 <= i < j < r.len() implies !ahead(
            #[trigger] r[j],
            #[trigger] r[i],
        ) by {
            if j == r.len() - 1 {
                let e = inner[i];
                assert(inner.contains(e));
                assert(inner.to_multiset().contains(e));
                if e != t {
                    assert(init.to_multiset().contains(e));
                    assert(init.contains(e));
                    let k = choose|k: int| 0 <= k < init.len() && init[k] == e;
                    assert(s[k] == e);
                    assert(!ahead(s[s.len() - 1], s[k]));
                }
            }
        }
        assert(r.to_multiset() =~= s.to_multiset().insert(t));
    } else {
        assert forall|i: int, j: int| 0 <= i < j < r.len() implies !ahead(
            #[trigger] r[j],
            #[trigger] r[i],
        ) by {
            if j == s.len() && i < s.len() - 1 {
                assert(!ahead(s[s.len() - 1], s[i]));
            }
        }
    }
}

/// Sorting puts the elements in order, and neither drops nor adds one.
pub proof fn lemma_in_order<A>(s: Seq<A>, ahead: spec_fn(A, A) -> bool)
    requires
        is_weak_order(ahead),
    ensures
        is_in_order(in_order(s, ahead), ahead),
        in_order(s, ahead).to_multiset() == s.to_multiset(),
        in_order(s, ahead).len() == s.len(),
    decreases s.len(),
{
    broadcast use vstd::seq_lib::group_to_multiset_ensures;

    if s.len() > 0 {
        lemma_in_order(s.drop_last(), ahead);
        lemma_placed(in_order(s.drop_last(), ahead), s.last(), ahead);
        assert(s.drop_last().push(s.last()) =~= s);
        assert(in_order(s, ahead).to_multiset().len() == s.to_multiset().len());
    }
}

proof fn lemma_filter_push<A>(s: Seq<A>, t: A, p: spec_fn(A) -> bool)
    ensures
        s.push(t).filter(p) == if p(t) {
            s.filter(p).push(t)
        } else {
            s.filter(p)
        },
{
    reveal(Seq::filter);
    assert(s.push(t).drop_last() =~= s);
}

proof fn lemma_placed_stable<A>(
    s: Seq<A>,
    t: A,
    ahead: spec_fn(A, A) -> bool,
    p: spec_fn(A) -> bool,
)
    requires
        forall|a: A, b: A| p(a) && p(b) ==> !(#[trigger] ahead(a, b)),
    ensures
        placed(s, t, ahead).filter(p) == s.push(t).filter(p),
    decreases s.len(),
{
    if s.len() > 0 && ahead(t, s.last()) {
        let init = s.drop_last();
        assert(init.push(s.last()) =~= s);
        lemma_placed_stable(init, t, ahead, p);
        lemma_filter_push(placed(init, t, ahead), s.last(), p);
        lemma_filter_push(init, t, p);
        lemma_filter_push(init, s.last(), p);
        lemma_filter_push(s, t, p);
    }
}

/// Sorting leaves elements of which none goes ahead of another as they stood.
pub proof fn lemma_in_order_stable<A>(
    s: Seq<A>,
    ahead: spec_fn(A, A) -> bool,
    p: spec_fn(A) -> bool,
)
    requires
        forall|a: A, b: A| p(a) && p(b) ==> !(#[trigger] ahead(a, b)),
    ensures
        in_order(s, ahead).filter(p) == s.filter(p),
    decreases s.len(),
{
    if s.len() > 0 {
        let init = s.drop_last();
        assert(init.push(s.last()) =~= s);
        lemma_in_order_stable(init, ahead, p);
        lemma_placed_stable(in_order(init, ahead), s.last(), ahead, p);
        lemma_filter_push(in_order(init, ahead), s.last(), p);
        lemma_filter_push(init, s.last(), p);
    }
}

} // verus!
