//! What holds of every listing.

use crate::listing::filters::{
    lemma_filter_all, lemma_filter_commutes, lemma_filter_member, lemma_filter_none,
    lemma_filter_reverse,
};
use crate::listing::order::{
    has_name, is_sorted, lemma_sorted_by_name_is_stable_sort, lemma_sorted_by_name_of_sorted,
    lemma_sorted_by_name_permutes, lemma_sorted_by_name_reversed, named, sorted_by_name,
};
use crate::listing::{
    directories, is_directory, is_hidden, listing, not_directory, not_hidden, ordered, others,
    shown, EntryKind, EntryView,
};
use crate::options::OptionsView;
use vstd::prelude::*;

verus! {

/// The options `o` with the direction of the order turned round.
pub open spec fn turned_round(o: OptionsView) -> OptionsView {
    OptionsView { reverse_sorted: !o.reverse_sorted, ..o }
}

/// Directories and other entries together are all the entries.
proof fn lemma_split_by_kind(s: Seq<EntryView>)
    ensures
        directories(s).len() + others(s).len() == s.len(),
        directories(s).to_multiset().add(others(s).to_multiset()) == s.to_multiset(),
    decreases s.len(),
{
    reveal(Seq::filter);
    if s.len() > 0 {
        let front = s.drop_last();
        let x = s.last();
        lemma_split_by_kind(front);
        assert(front.push(x) =~= s);
        vstd::seq_lib::to_multiset_build(front, x);
        vstd::seq_lib::to_multiset_build(directories(front), x);
        vstd::seq_lib::to_multiset_build(others(front), x);
    } else {
        vstd::seq_lib::to_multiset_len(s);
    }
}

/// Arranging only reorders: the result holds every entry as often as the
/// sequence it was made from.
pub proof fn lemma_ordered_keeps_entries(s: Seq<EntryView>, o: OptionsView)
    ensures
        ordered(s, o).to_multiset() == s.to_multiset(),
        ordered(s, o).len() == s.len(),
        forall|e: EntryView| ordered(s, o).contains(e) <==> s.contains(e),
{
    if o.group_by {
        let dirs = sorted_by_name(directories(s), o.reverse_sorted);
        let rest = sorted_by_name(others(s), o.reverse_sorted);
        lemma_sorted_by_name_permutes(directories(s), o.reverse_sorted);
        lemma_sorted_by_name_permutes(others(s), o.reverse_sorted);
        lemma_split_by_kind(s);
        vstd::seq_lib::lemma_multiset_commutative(dirs, rest);
        vstd::seq_lib::lemma_multiset_commutative(rest, dirs);
    } else {
        lemma_sorted_by_name_permutes(s, o.reverse_sorted);
    }
    assert forall|e: EntryView| ordered(s, o).contains(e) <==> s.contains(e) by {
        vstd::seq_lib::to_multiset_contains(ordered(s, o), e);
        vstd::seq_lib::to_multiset_contains(s, e);
    }
}

/// An entry is listed exactly when the directory holds it and the options let
/// it through: a hidden entry only with show-all.
pub proof fn lemma_listing_holds_what_is_shown(s: Seq<EntryView>, o: OptionsView, e: EntryView)
    ensures
        listing(s, o).contains(e) <==> s.contains(e) && (o.all || !is_hidden(e.name)),
{
    lemma_ordered_keeps_entries(shown(s, o), o);
    lemma_filter_member(s, not_hidden(), e);
}

/// Without show-all no listed entry has a name that begins with a period.
pub proof fn lemma_hidden_entries_are_not_listed(s: Seq<EntryView>, o: OptionsView)
    requires
        !o.all,
    ensures
        forall|i: int| 0 <= i < listing(s, o).len() ==> !is_hidden(#[trigger] listing(s, o)[i].name),
{
    assert forall|i: int| 0 <= i < listing(s, o).len() implies !is_hidden(
        #[trigger] listing(s, o)[i].name,
    ) by {
        let e = listing(s, o)[i];
        assert(listing(s, o).contains(e));
        lemma_listing_holds_what_is_shown(s, o, e);
    }
}

/// With show-all the listing holds every entry of the directory as often as
/// the directory does.
pub proof fn lemma_show_all_lists_everything(s: Seq<EntryView>, o: OptionsView)
    requires
        o.all,
    ensures
        listing(s, o).to_multiset() == s.to_multiset(),
        listing(s, o).len() == s.len(),
{
    lemma_ordered_keeps_entries(s, o);
}

/// Without grouping the listing is sorted by name, in the direction that the
/// options choose.
pub proof fn lemma_listing_is_sorted(s: Seq<EntryView>, o: OptionsView)
    requires
        !o.group_by,
    ensures
        is_sorted(listing(s, o), o.reverse_sorted),
{
    lemma_sorted_by_name_is_stable_sort(shown(s, o), o.reverse_sorted);
}

/// Sorting twice is sorting once.
pub proof fn lemma_sorting_is_idempotent(s: Seq<EntryView>, descending: bool)
    ensures
        sorted_by_name(sorted_by_name(s, descending), descending) == sorted_by_name(s, descending),
{
    lemma_sorted_by_name_is_stable_sort(s, descending);
    lemma_sorted_by_name_of_sorted(sorted_by_name(s, descending), descending);
}

/// The sorted directories are directories, and the sorted other entries are
/// none.
proof fn lemma_sorted_parts_keep_their_kind(s: Seq<EntryView>, descending: bool)
    ensures
        sorted_by_name(directories(s), descending).len() == directories(s).len(),
        sorted_by_name(others(s), descending).len() == others(s).len(),
        forall|i: int|
            0 <= i < sorted_by_name(directories(s), descending).len() ==> (#[trigger] sorted_by_name(
                directories(s),
                descending,
            )[i]).kind == EntryKind::Directory,
        forall|i: int|
            0 <= i < sorted_by_name(others(s), descending).len() ==> (#[trigger] sorted_by_name(
                others(s),
                descending,
            )[i]).kind != EntryKind::Directory,
{
    let dirs = sorted_by_name(directories(s), descending);
    let rest = sorted_by_name(others(s), descending);
    lemma_sorted_by_name_permutes(directories(s), descending);
    lemma_sorted_by_name_permutes(others(s), descending);
    assert forall|i: int| 0 <= i < dirs.len() implies (#[trigger] dirs[i]).kind
        == EntryKind::Directory by {
        assert(dirs.contains(dirs[i]));
        lemma_filter_member(s, is_directory(), dirs[i]);
    }
    assert forall|i: int| 0 <= i < rest.len() implies (#[trigger] rest[i]).kind
        != EntryKind::Directory by {
        assert(rest.contains(rest[i]));
        lemma_filter_member(s, not_directory(), rest[i]);
    }
}

/// Selecting by kind from directories joined with entries that are none
/// gives back the two parts.
proof fn lemma_parts_of_joined(dirs: Seq<EntryView>, rest: Seq<EntryView>)
    requires
        forall|i: int| 0 <= i < dirs.len() ==> (#[trigger] dirs[i]).kind == EntryKind::Directory,
        forall|i: int| 0 <= i < rest.len() ==> (#[trigger] rest[i]).kind != EntryKind::Directory,
    ensures
        directories(dirs + rest) == dirs,
        others(dirs + rest) == rest,
        directories(rest + dirs) == dirs,
        others(rest + dirs) == rest,
{
    lemma_filter_all(dirs, is_directory());
    lemma_filter_none(dirs, not_directory());
    lemma_filter_all(rest, not_directory());
    lemma_filter_none(rest, is_directory());
    Seq::filter_distributes_over_add(dirs, rest, is_directory());
    Seq::filter_distributes_over_add(dirs, rest, not_directory());
    Seq::filter_distributes_over_add(rest, dirs, is_directory());
    Seq::filter_distributes_over_add(rest, dirs, not_directory());
}

/// Arranging what is already arranged changes nothing.
pub proof fn lemma_ordering_is_idempotent(s: Seq<EntryView>, o: OptionsView)
    ensures
        ordered(ordered(s, o), o) == ordered(s, o),
{
    if o.group_by {
        let dirs = sorted_by_name(directories(s), o.reverse_sorted);
        let rest = sorted_by_name(others(s), o.reverse_sorted);
        lemma_sorted_parts_keep_their_kind(s, o.reverse_sorted);
        lemma_parts_of_joined(dirs, rest);
        lemma_sorting_is_idempotent(directories(s), o.reverse_sorted);
        lemma_sorting_is_idempotent(others(s), o.reverse_sorted);
    } else {
        lemma_sorting_is_idempotent(s, o.reverse_sorted);
    }
}

/// Listing a listing again, under the same options, changes nothing.
pub proof fn lemma_listing_is_idempotent(s: Seq<EntryView>, o: OptionsView)
    ensures
        listing(listing(s, o), o) == listing(s, o),
{
    let once = listing(s, o);
    if !o.all {
        assert forall|i: int| 0 <= i < once.len() implies not_hidden()(once[i]) by {
            assert(once.contains(once[i]));
            lemma_listing_holds_what_is_shown(s, o, once[i]);
        }
        lemma_filter_all(once, not_hidden());
    }
    assert(shown(once, o) == once);
    lemma_ordering_is_idempotent(shown(s, o), o);
}

/// Turning the order round reverses the listing, with grouping and without,
/// provided the entries shown under each name read the same in both
/// directions. Where they do not, the two listings differ: entries that share
/// a name keep their order both times.
pub proof fn lemma_reverse_order_reverses_listing(s: Seq<EntryView>, o: OptionsView)
    requires
        forall|name: Seq<char>| #[trigger]
            named(shown(s, o), name).reverse() == named(shown(s, o), name),
    ensures
        listing(s, turned_round(o)) == listing(s, o).reverse(),
{
    let v = shown(s, o);
    assert(shown(s, turned_round(o)) == v);
    if o.group_by {
        let d = o.reverse_sorted;
        assert forall|name: Seq<char>| #[trigger]
            named(directories(v), name).reverse() == named(directories(v), name) by {
            lemma_filter_commutes(v, is_directory(), has_name(name));
            lemma_filter_reverse(named(v, name), is_directory());
            assert(named(v, name).reverse() == named(v, name));
        }
        assert forall|name: Seq<char>| #[trigger]
            named(others(v), name).reverse() == named(others(v), name) by {
            lemma_filter_commutes(v, not_directory(), has_name(name));
            lemma_filter_reverse(named(v, name), not_directory());
            assert(named(v, name).reverse() == named(v, name));
        }
        lemma_sorted_by_name_reversed(directories(v), d);
        lemma_sorted_by_name_reversed(others(v), d);
        let dirs = sorted_by_name(directories(v), d);
        let rest = sorted_by_name(others(v), d);
        assert((dirs + rest).reverse() =~= rest.reverse() + dirs.reverse());
        assert((rest + dirs).reverse() =~= dirs.reverse() + rest.reverse());
    } else {
        lemma_sorted_by_name_reversed(v, o.reverse_sorted);
    }
}

/// Among entries that all bear different names at most one bears a given
/// name.
proof fn lemma_distinct_names_select_one(s: Seq<EntryView>, name: Seq<char>)
    requires
        forall|i: int, j: int| 0 <= i < j < s.len() ==> s[i].name != s[j].name,
    ensures
        named(s, name).len() <= 1,
    decreases s.len(),
{
    reveal(Seq::filter);
    if s.len() > 0 {
        let front = s.drop_last();
        assert forall|i: int, j: int| 0 <= i < j < front.len() implies front[i].name
            != front[j].name by {
            assert(front[i] == s[i] && front[j] == s[j]);
        }
        lemma_distinct_names_select_one(front, name);
        if s.last().name == name {
            assert forall|i: int| 0 <= i < front.len() implies !has_name(name)(front[i]) by {
                assert(front[i] == s[i]);
            }
            lemma_filter_none(front, has_name(name));
        }
    }
}

/// Where no two entries of the directory share a name, as in every directory
/// of a file system, turning the order round reverses the listing, with
/// grouping and without.
pub proof fn lemma_reverse_order_reverses_listing_of_distinct_names(
    s: Seq<EntryView>,
    o: OptionsView,
)
    requires
        forall|i: int, j: int| 0 <= i < j < s.len() ==> s[i].name != s[j].name,
    ensures
        listing(s, turned_round(o)) == listing(s, o).reverse(),
{
    let v = shown(s, o);
    assert forall|name: Seq<char>| #[trigger] named(v, name).reverse() == named(v, name) by {
        lemma_distinct_names_select_one(s, name);
        if v != s {
            lemma_filter_commutes(s, not_hidden(), has_name(name));
            named(s, name).lemma_filter_len(not_hidden());
        }
        assert(named(v, name).reverse() =~= named(v, name));
    }
    lemma_reverse_order_reverses_listing(s, o);
}

/// With grouping, in ascending order, the listing begins with the visible
/// directories, sorted by name, and goes on with the other visible entries,
/// sorted by name: every directory stands before every other entry.
pub proof fn lemma_grouping_puts_directories_first(s: Seq<EntryView>, o: OptionsView)
    requires
        o.group_by,
        !o.reverse_sorted,
    ensures
        listing(s, o).len() == shown(s, o).len(),
        directories(shown(s, o)).len() <= listing(s, o).len(),
        forall|i: int|
            0 <= i < directories(shown(s, o)).len() ==> (#[trigger] listing(s, o)[i]).kind
                == EntryKind::Directory,
        forall|i: int|
            directories(shown(s, o)).len() <= i < listing(s, o).len() ==> (#[trigger] listing(
                s,
                o,
            )[i]).kind != EntryKind::Directory,
        is_sorted(listing(s, o).take(directories(shown(s, o)).len() as int), false),
        is_sorted(listing(s, o).skip(directories(shown(s, o)).len() as int), false),
{
    let v = shown(s, o);
    let out = listing(s, o);
    let k = directories(v).len() as int;
    let dirs = sorted_by_name(directories(v), false);
    let rest = sorted_by_name(others(v), false);
    assert(out == dirs + rest);
    lemma_sorted_parts_keep_their_kind(v, false);
    lemma_ordered_keeps_entries(v, o);
    assert(out.take(k) =~= dirs);
    assert(out.skip(k) =~= rest);
    lemma_sorted_by_name_is_stable_sort(directories(v), false);
    lemma_sorted_by_name_is_stable_sort(others(v), false);
    assert forall|i: int| 0 <= i < k implies (#[trigger] out[i]).kind
        == EntryKind::Directory by {
        assert(out[i] == dirs[i]);
    }
    assert forall|i: int| k <= i < out.len() implies (#[trigger] out[i]).kind
        != EntryKind::Directory by {
        assert(out[i] == rest[i - k]);
    }
}

} // verus!
