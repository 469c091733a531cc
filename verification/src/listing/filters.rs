//! Facts about selecting from a sequence.

use vstd::prelude::*;

verus! {

/// Selecting from a sequence whose last element is known.
pub proof fn lemma_filter_last<A>(s: Seq<A>, pred: spec_fn(A) -> bool)
    requires
        s.len() > 0,
    ensures
        s.filter(pred) == if pred(s.last()) {
            s.drop_last().filter(pred).push(s.last())
        } else {
            s.drop_last().filter(pred)
        },
{
    reveal(Seq::filter);
}

/// Selecting keeps a sequence whose elements are all selected.
pub proof fn lemma_filter_all<A>(s: Seq<A>, pred: spec_fn(A) -> bool)
    requires
        forall|i: int| 0 <= i < s.len() ==> pred(s[i]),
    ensures
        s.filter(pred) == s,
    decreases s.len(),
{
    reveal(Seq::filter);
    if s.len() > 0 {
        let front = s.drop_last();
        assert forall|i: int| 0 <= i < front.len() implies pred(front[i]) by {
            assert(front[i] == s[i]);
        }
        lemma_filter_all(front, pred);
        assert(front.push(s.last()) =~= s);
    }
}

/// Selecting leaves nothing of a sequence none of whose elements is selected.
pub proof fn lemma_filter_none<A>(s: Seq<A>, pred: spec_fn(A) -> bool)
    requires
        forall|i: int| 0 <= i < s.len() ==> !pred(s[i]),
    ensures
        s.filter(pred) == Seq::<A>::empty(),
    decreases s.len(),
{
    reveal(Seq::filter);
    if s.len() > 0 {
        let front = s.drop_last();
        assert forall|i: int| 0 <= i < front.len() implies !pred(front[i]) by {
            assert(front[i] == s[i]);
        }
        lemma_filter_none(front, pred);
    }
}

/// An element is selected exactly when the sequence holds it and the
/// predicate accepts it.
pub proof fn lemma_filter_member<A>(s: Seq<A>, pred: spec_fn(A) -> bool, e: A)
    ensures
        s.filter(pred).contains(e) <==> s.contains(e) && pred(e),
{
    if s.filter(pred).contains(e) {
        s.lemma_filter_contains_rev(pred, e);
        let i = choose|i: int| 0 <= i < s.filter(pred).len() && s.filter(pred)[i] == e;
        s.lemma_filter_pred(pred, i);
    }
    if s.contains(e) && pred(e) {
        let i = choose|i: int| 0 <= i < s.len() && s[i] == e;
        s.lemma_filter_contains(pred, i);
    }
}

/// Selecting from a reversed sequence reverses the selection.
pub proof fn lemma_filter_reverse<A>(s: Seq<A>, pred: spec_fn(A) -> bool)
    ensures
        s.reverse().filter(pred) == s.filter(pred).reverse(),
    decreases s.len(),
{
    reveal(Seq::filter);
    if s.len() == 0 {
        assert(s.reverse() =~= s);
        assert(s.filter(pred).reverse() =~= s.filter(pred));
    } else {
        let front = s.drop_last();
        let x = s.last();
        lemma_filter_reverse(front, pred);
        assert(s.reverse() =~= seq![x] + front.reverse());
        Seq::filter_distributes_over_add(seq![x], front.reverse(), pred);
        lemma_filter_last(seq![x], pred);
        assert(seq![x].drop_last() =~= Seq::<A>::empty());
        let chosen = front.filter(pred);
        if pred(x) {
            assert(seq![x].filter(pred) =~= seq![x]);
            assert(chosen.push(x).reverse() =~= seq![x] + chosen.reverse());
        } else {
            assert(seq![x].filter(pred) =~= Seq::<A>::empty());
            assert(Seq::<A>::empty() + chosen.reverse() =~= chosen.reverse());
        }
    }
}

/// Two selections may be made in either order.
pub proof fn lemma_filter_commutes<A>(s: Seq<A>, p: spec_fn(A) -> bool, q: spec_fn(A) -> bool)
    ensures
        s.filter(p).filter(q) == s.filter(q).filter(p),
    decreases s.len(),
{
    reveal(Seq::filter);
    if s.len() > 0 {
        let front = s.drop_last();
        let x = s.last();
        lemma_filter_commutes(front, p, q);
        if p(x) {
            lemma_filter_last(front.filter(p).push(x), q);
            assert(front.filter(p).push(x).drop_last() =~= front.filter(p));
        }
        if q(x) {
            lemma_filter_last(front.filter(q).push(x), p);
            assert(front.filter(q).push(x).drop_last() =~= front.filter(q));
        }
    }
}

} // verus!
