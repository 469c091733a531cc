//! What it means for a sequence of entries to be sorted by name, and why there
//! is exactly one stable sort of every sequence.

use crate::listing::filters::lemma_filter_reverse;
use crate::listing::names::{
    lemma_name_le_antisymmetric, lemma_name_le_reflexive, lemma_name_le_total,
    lemma_name_le_transitive, name_le,
};
use crate::listing::EntryView;
use vstd::prelude::*;

verus! {

/// `a` may stand before `b` when names run ascending, or descending.
pub open spec fn in_order(a: Seq<char>, b: Seq<char>, descending: bool) -> bool {
    if descending {
        name_le(b, a)
    } else {
        name_le(a, b)
    }
}

/// Every entry may stand before all the entries behind it.
pub open spec fn is_sorted(s: Seq<EntryView>, descending: bool) -> bool {
    forall|i: int, j: int| 0 <= i < j < s.len() ==> in_order(s[i].name, s[j].name, descending)
}

/// Selects the entries that bear `name`.
pub open spec fn has_name(name: Seq<char>) -> spec_fn(EntryView) -> bool {
    |e: EntryView| e.name == name
}

/// The entries of `s` that bear `name`, in the order in which `s` holds them.
pub open spec fn named(s: Seq<EntryView>, name: Seq<char>) -> Seq<EntryView> {
    s.filter(has_name(name))
}

/// `r` holds the entries of `s` sorted by name, and entries that share a name
/// stand in `r` as they stood in `s`.
pub open spec fn is_stable_sort_of(r: Seq<EntryView>, s: Seq<EntryView>, descending: bool) -> bool {
    &&& is_sorted(r, descending)
    &&& forall|name: Seq<char>| #[trigger] named(r, name) == named(s, name)
}

/// The stable sort of `s` by name.
#[verifier::opaque]
pub open spec fn sorted_by_name(s: Seq<EntryView>, descending: bool) -> Seq<EntryView> {
    choose|r: Seq<EntryView>| is_stable_sort_of(r, s, descending)
}

/// Where `name` goes into the sorted sequence `r`: behind every entry that may
/// stand before it.
pub open spec fn insertion_point(r: Seq<EntryView>, name: Seq<char>, descending: bool) -> int
    decreases r.len(),
{
    if r.len() == 0 {
        0
    } else if in_order(r.last().name, name, descending) {
        r.len() as int
    } else {
        insertion_point(r.drop_last(), name, descending)
    }
}

/// Every name may stand before itself.
pub proof fn lemma_in_order_reflexive(a: Seq<char>, descending: bool)
    ensures
        in_order(a, a, descending),
{
    lemma_name_le_reflexive(a);
}

/// Of two names, one may stand before the other.
pub proof fn lemma_in_order_total(a: Seq<char>, b: Seq<char>, descending: bool)
    ensures
        in_order(a, b, descending) || in_order(b, a, descending),
{
    lemma_name_le_total(a, b);
}

/// Two names each of which may stand before the other are one name.
pub proof fn lemma_in_order_antisymmetric(a: Seq<char>, b: Seq<char>, descending: bool)
    requires
        in_order(a, b, descending),
        in_order(b, a, descending),
    ensures
        a == b,
{
    lemma_name_le_antisymmetric(a, b);
}

/// A name that may stand before a second, which may stand before a third, may
/// stand before the third.
pub proof fn lemma_in_order_transitive(a: Seq<char>, b: Seq<char>, c: Seq<char>, descending: bool)
    requires
        in_order(a, b, descending),
        in_order(b, c, descending),
    ensures
        in_order(a, c, descending),
{
    if descending {
        lemma_name_le_transitive(c, b, a);
    } else {
        lemma_name_le_transitive(a, b, c);
    }
}

/// The entries that bear a name, taken from the end of the sequence.
pub proof fn lemma_named_last(s: Seq<EntryView>, name: Seq<char>)
    requires
        s.len() > 0,
    ensures
        named(s, name) == if s.last().name == name {
            named(s.drop_last(), name).push(s.last())
        } else {
            named(s.drop_last(), name)
        },
{
    reveal(Seq::filter);
}

/// The entries that bear a name, over two sequences joined.
pub proof fn lemma_named_concat(a: Seq<EntryView>, b: Seq<EntryView>, name: Seq<char>)
    ensures
        named(a + b, name) == named(a, name) + named(b, name),
{
    Seq::filter_distributes_over_add(a, b, has_name(name));
}

/// No entry bears `name` exactly when none is selected.
pub proof fn lemma_named_empty(s: Seq<EntryView>, name: Seq<char>)
    ensures
        named(s, name).len() == 0 <==> forall|i: int| 0 <= i < s.len() ==> s[i].name != name,
    decreases s.len(),
{
    if s.len() > 0 {
        lemma_named_last(s, name);
        lemma_named_empty(s.drop_last(), name);
        if named(s, name).len() == 0 {
            assert forall|i: int| 0 <= i < s.len() implies s[i].name != name by {
                if i < s.len() - 1 {
                    assert(s.drop_last()[i] == s[i]);
                }
            }
        } else if s.last().name != name {
            let i = choose|i: int| 0 <= i < s.len() - 1 && s.drop_last()[i].name == name;
            assert(s[i].name == name);
        }
    } else {
        reveal(Seq::filter);
    }
}

/// Putting `e` into a stable sort of `s`, behind the entries that may stand
/// before it and before the others, gives a stable sort of `s` with `e` added.
pub proof fn lemma_insert_keeps_stable_sort(
    r: Seq<EntryView>,
    s: Seq<EntryView>,
    e: EntryView,
    p: int,
    descending: bool,
)
    requires
        is_stable_sort_of(r, s, descending),
        0 <= p <= r.len(),
        forall|i: int| 0 <= i < p ==> in_order(r[i].name, e.name, descending),
        forall|i: int| p <= i < r.len() ==> !in_order(#[trigger] r[i].name, e.name, descending),
    ensures
        is_stable_sort_of(r.insert(p, e), s.push(e), descending),
{
    let t = r.insert(p, e);
    assert forall|i: int, j: int| 0 <= i < j < t.len() implies in_order(
        t[i].name,
        t[j].name,
        descending,
    ) by {
        if i == p {
            lemma_in_order_total(r[j - 1].name, e.name, descending);
        }
    }
    assert forall|name: Seq<char>| #[trigger] named(t, name) == named(s.push(e), name) by {
        let head = r.take(p);
        let tail = r.skip(p);
        assert(t =~= head + seq![e] + tail);
        assert(r =~= head + tail);
        lemma_named_concat(head + seq![e], tail, name);
        lemma_named_concat(head, seq![e], name);
        lemma_named_concat(head, tail, name);
        lemma_named_last(seq![e], name);
        lemma_named_empty(Seq::<EntryView>::empty(), name);
        lemma_named_last(s.push(e), name);
        assert(s.push(e).drop_last() =~= s);
        if e.name == name {
            lemma_named_empty(tail, name);
            lemma_in_order_reflexive(name, descending);
        }
    }
}

/// A sorted sequence without its last entry is sorted.
pub proof fn lemma_front_is_sorted(s: Seq<EntryView>, descending: bool)
    requires
        is_sorted(s, descending),
        s.len() > 0,
    ensures
        is_sorted(s.drop_last(), descending),
{
    let front = s.drop_last();
    assert forall|i: int, j: int| 0 <= i < j < front.len() implies in_order(
        front[i].name,
        front[j].name,
        descending,
    ) by {
        assert(front[i] == s[i] && front[j] == s[j]);
    }
}

/// The properties of the insertion point in a sorted sequence.
pub proof fn lemma_insertion_point(r: Seq<EntryView>, name: Seq<char>, descending: bool)
    requires
        is_sorted(r, descending),
    ensures
        0 <= insertion_point(r, name, descending) <= r.len(),
        forall|i: int|
            0 <= i < insertion_point(r, name, descending) ==> in_order(
                r[i].name,
                name,
                descending,
            ),
        forall|i: int|
            insertion_point(r, name, descending) <= i < r.len() ==> !in_order(
                #[trigger] r[i].name,
                name,
                descending,
            ),
    decreases r.len(),
{
    if r.len() > 0 {
        if in_order(r.last().name, name, descending) {
            assert forall|i: int| 0 <= i < r.len() implies in_order(
                r[i].name,
                name,
                descending,
            ) by {
                if i < r.len() - 1 {
                    lemma_in_order_transitive(r[i].name, r.last().name, name, descending);
                }
            }
        } else {
            let front = r.drop_last();
            lemma_front_is_sorted(r, descending);
            lemma_insertion_point(front, name, descending);
            let p = insertion_point(front, name, descending);
            assert forall|i: int| 0 <= i < p implies in_order(r[i].name, name, descending) by {
                assert(front[i] == r[i]);
            }
            assert forall|i: int| p <= i < r.len() implies !in_order(
                #[trigger] r[i].name,
                name,
                descending,
            ) by {
                if i < r.len() - 1 {
                    assert(front[i] == r[i]);
                }
            }
        }
    }
}

/// Every sequence has a stable sort, and one that holds each entry as often
/// as the sequence does.
pub proof fn lemma_stable_sort_exists(s: Seq<EntryView>, descending: bool)
    ensures
        exists|r: Seq<EntryView>| #[trigger]
            is_stable_sort_of(r, s, descending) && r.to_multiset() == s.to_multiset(),
    decreases s.len(),
{
    if s.len() == 0 {
        assert(is_stable_sort_of(s, s, descending) && s.to_multiset() == s.to_multiset());
    } else {
        let front = s.drop_last();
        lemma_stable_sort_exists(front, descending);
        let r = choose|r: Seq<EntryView>| #[trigger]
            is_stable_sort_of(r, front, descending) && r.to_multiset() == front.to_multiset();
        let e = s.last();
        let p = insertion_point(r, e.name, descending);
        lemma_insertion_point(r, e.name, descending);
        lemma_insert_keeps_stable_sort(r, front, e, p, descending);
        assert(front.push(e) =~= s);
        vstd::seq_lib::to_multiset_insert(r, p, e);
        vstd::seq_lib::to_multiset_build(front, e);
    }
}

/// Two sorted sequences that hold the same entries under every name are one
/// sequence.
pub proof fn lemma_sorted_sequences_agree(a: Seq<EntryView>, b: Seq<EntryView>, descending: bool)
    requires
        is_sorted(a, descending),
        is_sorted(b, descending),
        forall|name: Seq<char>| #[trigger] named(a, name) == named(b, name),
    ensures
        a == b,
    decreases a.len(),
{
    if a.len() == 0 {
        if b.len() > 0 {
            let m = b.last().name;
            lemma_named_last(b, m);
            lemma_named_empty(a, m);
        }
    } else {
        // The two last entries bear one name: each of their names is borne
        // in the other sequence too, so neither name stands behind the other.
        let x = a.last();
        let y = b.last();
        lemma_named_last(a, x.name);
        lemma_named_empty(b, x.name);
        lemma_named_last(b, y.name);
        lemma_named_empty(a, y.name);
        let i = choose|i: int| 0 <= i < b.len() && b[i].name == x.name;
        let j = choose|j: int| 0 <= j < a.len() && a[j].name == y.name;
        lemma_in_order_reflexive(x.name, descending);
        assert(in_order(a[j].name, x.name, descending));
        assert(in_order(b[i].name, y.name, descending));
        lemma_in_order_antisymmetric(x.name, y.name, descending);
        // Each is the last of the entries that bear this name, so they are
        // one entry, and what stands before them agrees by induction.
        assert(x == named(a, x.name).last());
        assert(y == named(b, x.name).last());
        let a2 = a.drop_last();
        let b2 = b.drop_last();
        assert forall|name: Seq<char>| #[trigger] named(a2, name) == named(b2, name) by {
            lemma_named_last(a, name);
            lemma_named_last(b, name);
            if name == x.name {
                assert(named(a2, name) =~= named(a, name).drop_last());
                assert(named(b2, name) =~= named(b, name).drop_last());
            }
        }
        lemma_front_is_sorted(a, descending);
        lemma_front_is_sorted(b, descending);
        lemma_sorted_sequences_agree(a2, b2, descending);
        assert(a =~= a2.push(x));
        assert(b =~= b2.push(y));
    }
}

/// `sorted_by_name` is a stable sort of its argument.
pub proof fn lemma_sorted_by_name_is_stable_sort(s: Seq<EntryView>, descending: bool)
    ensures
        is_stable_sort_of(sorted_by_name(s, descending), s, descending),
{
    reveal(sorted_by_name);
    lemma_stable_sort_exists(s, descending);
}

/// `sorted_by_name` is the only stable sort of its argument.
pub proof fn lemma_stable_sort_is_sorted_by_name(
    r: Seq<EntryView>,
    s: Seq<EntryView>,
    descending: bool,
)
    requires
        is_stable_sort_of(r, s, descending),
    ensures
        r == sorted_by_name(s, descending),
{
    let t = sorted_by_name(s, descending);
    lemma_sorted_by_name_is_stable_sort(s, descending);
    assert forall|name: Seq<char>| #[trigger] named(r, name) == named(t, name) by {
        assert(named(r, name) == named(s, name));
        assert(named(t, name) == named(s, name));
    }
    lemma_sorted_sequences_agree(r, t, descending);
}

/// Sorting reorders: the stable sort holds each entry as often as the sequence
/// it was made from.
pub proof fn lemma_sorted_by_name_permutes(s: Seq<EntryView>, descending: bool)
    ensures
        sorted_by_name(s, descending).to_multiset() == s.to_multiset(),
        sorted_by_name(s, descending).len() == s.len(),
        forall|e: EntryView| sorted_by_name(s, descending).contains(e) <==> s.contains(e),
{
    lemma_stable_sort_exists(s, descending);
    let r = choose|r: Seq<EntryView>| #[trigger]
        is_stable_sort_of(r, s, descending) && r.to_multiset() == s.to_multiset();
    lemma_stable_sort_is_sorted_by_name(r, s, descending);
    vstd::seq_lib::to_multiset_len(r);
    vstd::seq_lib::to_multiset_len(s);
    assert forall|e: EntryView| r.contains(e) <==> s.contains(e) by {
        vstd::seq_lib::to_multiset_contains(r, e);
        vstd::seq_lib::to_multiset_contains(s, e);
    }
}

/// Sorting leaves a sorted sequence as it is.
pub proof fn lemma_sorted_by_name_of_sorted(s: Seq<EntryView>, descending: bool)
    requires
        is_sorted(s, descending),
    ensures
        sorted_by_name(s, descending) == s,
{
    lemma_stable_sort_is_sorted_by_name(s, s, descending);
}

/// Sorting the other way round reverses the result, provided the entries
/// under each name read the same in both directions.
pub proof fn lemma_sorted_by_name_reversed(s: Seq<EntryView>, descending: bool)
    requires
        forall|name: Seq<char>| #[trigger] named(s, name).reverse() == named(s, name),
    ensures
        sorted_by_name(s, !descending) == sorted_by_name(s, descending).reverse(),
{
    let r = sorted_by_name(s, descending);
    let t = r.reverse();
    lemma_sorted_by_name_is_stable_sort(s, descending);
    assert forall|i: int, j: int| 0 <= i < j < t.len() implies in_order(
        t[i].name,
        t[j].name,
        !descending,
    ) by {
        assert(in_order(r[r.len() - 1 - j].name, r[r.len() - 1 - i].name, descending));
    }
    assert forall|name: Seq<char>| #[trigger] named(t, name) == named(s, name) by {
        lemma_filter_reverse(r, has_name(name));
        assert(named(r, name) == named(s, name));
        assert(named(s, name).reverse() == named(s, name));
    }
    lemma_stable_sort_is_sorted_by_name(t, s, !descending);
}

} // verus!
