//! What holds of the merge engine, whatever the records.

use crate::merge::{merge_runs, net_changes, sorted_records, sums_fit};
use crate::order::{lemma_record_order_total, record_le, record_lt, record_order};
use crate::record::{combine_records, sum_fits, ChangeDataView, PatchChangeView};
use crate::render::{rendered, UNCHANGED};
use crate::text::text_lt;
use vstd::prelude::*;
use vstd::relations::sorted_by;
use vstd::seq_lib::{
    lemma_sorted_unique, to_multiset_contains, to_multiset_len, to_multiset_remove,
};

verus! {

/// The records in merge order are the records given, each as often as it
/// was given, and no record stands before one that it comes after.
pub proof fn lemma_sorted_records(input: Seq<PatchChangeView>)
    ensures
        sorted_by(sorted_records(input), record_order()),
        sorted_records(input).to_multiset() == input.to_multiset(),
        sorted_records(input).len() == input.len(),
{
    lemma_record_order_total();
    input.lemma_sort_by_ensures(record_order());
    to_multiset_len(input);
    to_multiset_len(sorted_records(input));
}

/// The net changes depend on which records are given, not on the order in
/// which they are given.
pub proof fn lemma_net_changes_ignore_input_order(a: Seq<PatchChangeView>, b: Seq<PatchChangeView>)
    requires
        a.to_multiset() == b.to_multiset(),
    ensures
        net_changes(a) == net_changes(b),
{
    lemma_record_order_total();
    a.lemma_sort_by_ensures(record_order());
    b.lemma_sort_by_ensures(record_order());
    lemma_sorted_unique(sorted_records(a), sorted_records(b), record_order());
}

/// Records that are given in merge order are merged as they stand, and so
/// are those of any rearrangement of them.
pub proof fn lemma_net_changes_of_sorted(input: Seq<PatchChangeView>, sorted: Seq<PatchChangeView>)
    requires
        sorted_by(sorted, record_order()),
        input.to_multiset() == sorted.to_multiset(),
    ensures
        sorted_records(input) == sorted,
        net_changes(input) == merge_runs(sorted),
{
    lemma_record_order_total();
    input.lemma_sort_by_ensures(record_order());
    lemma_sorted_unique(sorted_records(input), sorted, record_order());
}

/// One more record either combines with the last net record or is appended
/// after it.
pub proof fn lemma_merge_runs_push(sorted: Seq<PatchChangeView>, current: PatchChangeView)
    ensures
        merge_runs(sorted.push(current)) == {
            let net = merge_runs(sorted);
            if net.len() == 0 {
                seq![current]
            } else {
                match combine_records(net.last(), current) {
                    Ok(combined) => net.drop_last().push(combined),
                    Err(_) => net.push(current),
                }
            }
        },
{
    assert(sorted.push(current).drop_last() =~= sorted);
}

/// With one more record, every amount still fits where it did before and
/// the amount that the record may add to fits too.
pub proof fn lemma_sums_fit_push(sorted: Seq<PatchChangeView>, current: PatchChangeView)
    ensures
        sums_fit(sorted.push(current)) <==> {
            let net = merge_runs(sorted);
            &&& sums_fit(sorted)
            &&& net.len() > 0 && net.last().property == current.property ==> sum_fits(
                net.last().data,
                current.data,
            )
        },
{
    assert(sorted.push(current).drop_last() =~= sorted);
}

/// The last net record is about the property of the last record given, and
/// every net record is about the property of some record given.
pub proof fn lemma_merge_runs_properties(sorted: Seq<PatchChangeView>)
    ensures
        sorted.len() > 0 ==> merge_runs(sorted).len() > 0 && merge_runs(sorted).last().property
            == sorted.last().property,
        forall|i: int|
            0 <= i < merge_runs(sorted).len() ==> exists|j: int|
                0 <= j < sorted.len() && sorted[j].property == (#[trigger] merge_runs(
                    sorted,
                )[i]).property,
    decreases sorted.len(),
{
    if sorted.len() > 0 {
        let before = sorted.drop_last();
        let net = merge_runs(before);
        let all = merge_runs(sorted);
        lemma_merge_runs_properties(before);
        assert forall|i: int| 0 <= i < all.len() implies exists|j: int|
            0 <= j < sorted.len() && sorted[j].property == (#[trigger] all[i]).property by {
            if i < net.len() && all[i].property == net[i].property {
                let j = choose|j: int|
                    0 <= j < before.len() && before[j].property == net[i].property;
                assert(sorted[j].property == all[i].property);
            } else {
                assert(sorted[sorted.len() - 1].property == all[i].property);
            }
        }
    }
}

/// Merging never makes more records than it is given, and it leaves none of
/// their properties out.
pub proof fn lemma_merge_runs_cover(sorted: Seq<PatchChangeView>)
    ensures
        merge_runs(sorted).len() <= sorted.len(),
        forall|j: int|
            0 <= j < sorted.len() ==> exists|i: int|
                0 <= i < merge_runs(sorted).len() && merge_runs(sorted)[i].property == (
                #[trigger] sorted[j]).property,
    decreases sorted.len(),
{
    if sorted.len() > 0 {
        let before = sorted.drop_last();
        let net = merge_runs(before);
        let all = merge_runs(sorted);
        lemma_merge_runs_cover(before);
        lemma_merge_runs_properties(sorted);
        assert forall|j: int| 0 <= j < sorted.len() implies exists|i: int|
            0 <= i < all.len() && all[i].property == (#[trigger] sorted[j]).property by {
            if j == sorted.len() - 1 {
                assert(all[all.len() - 1].property == sorted[j].property);
            } else {
                let i = choose|i: int| 0 <= i < net.len() && net[i].property == before[j].property;
                assert(all[i].property == sorted[j].property);
            }
        }
    }
}

/// The net changes are about the properties of the records given, all of
/// them and no others, and there are no more net changes than records.
pub proof fn lemma_net_changes_keep_properties(input: Seq<PatchChangeView>)
    ensures
        net_changes(input).len() <= input.len(),
        forall|j: int|
            0 <= j < input.len() ==> exists|i: int|
                0 <= i < net_changes(input).len() && net_changes(input)[i].property == (
                #[trigger] input[j]).property,
        forall|i: int|
            0 <= i < net_changes(input).len() ==> exists|j: int|
                0 <= j < input.len() && input[j].property == (#[trigger] net_changes(
                    input,
                )[i]).property,
{
    let sorted = sorted_records(input);
    let net = net_changes(input);
    lemma_sorted_records(input);
    lemma_merge_runs_cover(sorted);
    lemma_merge_runs_properties(sorted);
    assert forall|j: int| 0 <= j < input.len() implies exists|i: int|
        0 <= i < net.len() && net[i].property == (#[trigger] input[j]).property by {
        to_multiset_contains(input, input[j]);
        to_multiset_contains(sorted, input[j]);
        assert(input.contains(input[j]));
        let place = choose|place: int| 0 <= place < sorted.len() && sorted[place] == input[j];
        let i = choose|i: int| 0 <= i < net.len() && net[i].property == sorted[place].property;
        assert(net[i].property == input[j].property);
    }
    assert forall|i: int| 0 <= i < net.len() implies exists|j: int|
        0 <= j < input.len() && input[j].property == (#[trigger] net[i]).property by {
        let place = choose|place: int|
            0 <= place < sorted.len() && sorted[place].property == net[i].property;
        to_multiset_contains(input, sorted[place]);
        to_multiset_contains(sorted, sorted[place]);
        assert(sorted.contains(sorted[place]));
        let j = choose|j: int| 0 <= j < input.len() && input[j] == sorted[place];
        assert(input[j].property == net[i].property);
    }
}

/// A record that is the only one on its property among those merged comes
/// out as it went in: the net records hold it, at the index returned, and no
/// other net record is about its property.
pub proof fn lemma_merge_runs_keep_single(sorted: Seq<PatchChangeView>, k: int) -> (at: int)
    requires
        0 <= k < sorted.len(),
        forall|j: int| 0 <= j < sorted.len() && j != k ==> sorted[j].property != sorted[k].property,
    ensures
        0 <= at < merge_runs(sorted).len(),
        merge_runs(sorted)[at] == sorted[k],
        forall|i: int|
            0 <= i < merge_runs(sorted).len() && i != at ==> (#[trigger] merge_runs(
                sorted,
            )[i]).property != sorted[k].property,
    decreases sorted.len(),
{
    let before = sorted.drop_last();
    let current = sorted.last();
    let net = merge_runs(before);
    let all = merge_runs(sorted);
    let property = sorted[k].property;
    lemma_merge_runs_properties(before);
    if k == sorted.len() - 1 {
        assert forall|i: int| 0 <= i < net.len() implies (#[trigger] net[i]).property
            != property by {
            let j = choose|j: int| 0 <= j < before.len() && before[j].property == net[i].property;
            assert(sorted[j].property == net[i].property);
        }
        assert(all =~= net.push(current));
        net.len() as int
    } else {
        assert forall|j: int| 0 <= j < before.len() && j != k implies before[j].property
            != before[k].property by {
            assert(sorted[j].property != sorted[k].property);
        }
        let at = lemma_merge_runs_keep_single(before, k);
        assert(current.property != property);
        at
    }
}

/// A record found once in a sequence is counted once.
proof fn lemma_counted_once(s: Seq<PatchChangeView>, k: int)
    requires
        0 <= k < s.len(),
        forall|j: int| 0 <= j < s.len() && j != k ==> s[j] != s[k],
    ensures
        s.to_multiset().count(s[k]) == 1,
{
    broadcast use vstd::multiset::group_multiset_axioms;

    let rest = s.remove(k);
    to_multiset_remove(s, k);
    to_multiset_contains(rest, s[k]);
    to_multiset_contains(s, s[k]);
    assert(s.contains(s[k]));
    if rest.contains(s[k]) {
        let j = choose|j: int| 0 <= j < rest.len() && rest[j] == s[k];
        if j < k {
            assert(s[j] == s[k]);
        } else {
            assert(s[j + 1] == s[k]);
        }
    }
}

/// A record found at two places of a sequence is counted at least twice.
proof fn lemma_counted_twice(s: Seq<PatchChangeView>, i: int, j: int)
    requires
        0 <= i < j < s.len(),
        s[i] == s[j],
    ensures
        s.to_multiset().count(s[i]) >= 2,
{
    broadcast use vstd::multiset::group_multiset_axioms;

    let rest = s.remove(i);
    to_multiset_remove(s, i);
    to_multiset_contains(rest, s[i]);
    assert(rest[j - 1] == s[i]);
    assert(rest.contains(s[i]));
}

/// A property with exactly one record in the input has exactly one net
/// change, and that is the record itself: same property, version and data.
pub proof fn lemma_single_record_survives(input: Seq<PatchChangeView>, k: int) -> (at: int)
    requires
        0 <= k < input.len(),
        forall|j: int| 0 <= j < input.len() && j != k ==> input[j].property != input[k].property,
    ensures
        0 <= at < net_changes(input).len(),
        net_changes(input)[at] == input[k],
        forall|i: int|
            0 <= i < net_changes(input).len() && i != at ==> (#[trigger] net_changes(
                input,
            )[i]).property != input[k].property,
{
    let sorted = sorted_records(input);
    let record = input[k];
    lemma_record_order_total();
    input.lemma_sort_by_ensures(record_order());
    lemma_counted_once(input, k);
    to_multiset_contains(sorted, record);
    let place = choose|place: int| 0 <= place < sorted.len() && sorted[place] == record;
    assert forall|j: int| 0 <= j < sorted.len() && j != place implies sorted[j].property
        != sorted[place].property by {
        if sorted[j].property == record.property {
            assert(sorted.contains(sorted[j]));
            assert(input.contains(sorted[j]));
            let origin = choose|origin: int|
                0 <= origin < input.len() && input[origin] == sorted[j];
            assert(origin == k);
            if j < place {
                lemma_counted_twice(sorted, j, place);
            } else {
                lemma_counted_twice(sorted, place, j);
            }
        }
    }
    lemma_merge_runs_keep_single(sorted, place)
}

/// Three absolute changes on one property, in three successive versions,
/// merge into one: from the first value of the first to the last value of
/// the last, in the last version. The order in which they are given plays no
/// part.
pub proof fn lemma_absolute_changes_accumulate(
    input: Seq<PatchChangeView>,
    property: Seq<char>,
    v1: Seq<char>,
    v2: Seq<char>,
    v3: Seq<char>,
    a: Seq<char>,
    b: Seq<char>,
    c: Seq<char>,
    d: Seq<char>,
)
    requires
        text_lt(v1, v2),
        text_lt(v2, v3),
        input.to_multiset() == seq![
            PatchChangeView { property, version: v1, data: ChangeDataView::AbsoluteChange(a, b) },
            PatchChangeView { property, version: v2, data: ChangeDataView::AbsoluteChange(b, c) },
            PatchChangeView { property, version: v3, data: ChangeDataView::AbsoluteChange(c, d) },
        ].to_multiset(),
    ensures
        net_changes(input) == seq![
            PatchChangeView { property, version: v3, data: ChangeDataView::AbsoluteChange(a, d) },
        ],
{
    let first = PatchChangeView {
        property,
        version: v1,
        data: ChangeDataView::AbsoluteChange(a, b),
    };
    let second = PatchChangeView {
        property,
        version: v2,
        data: ChangeDataView::AbsoluteChange(b, c),
    };
    let third = PatchChangeView {
        property,
        version: v3,
        data: ChangeDataView::AbsoluteChange(c, d),
    };
    lemma_three_in_order(input, first, second, third);
    let none = Seq::<PatchChangeView>::empty();
    lemma_merge_runs_push(none, first);
    lemma_merge_runs_push(none.push(first), second);
    lemma_merge_runs_push(none.push(first).push(second), third);
    assert(seq![first, second, third] =~= none.push(first).push(second).push(third));
    assert(merge_runs(none.push(first)) =~= seq![first]);
    assert(merge_runs(none.push(first).push(second)) =~= seq![
        PatchChangeView { property, version: v2, data: ChangeDataView::AbsoluteChange(a, c) },
    ]);
    assert(merge_runs(none.push(first).push(second).push(third)) =~= seq![
        PatchChangeView { property, version: v3, data: ChangeDataView::AbsoluteChange(a, d) },
    ]);
}

/// Three records on one property in three successive versions are merged in
/// the order of their versions, however they are given.
proof fn lemma_three_in_order(
    input: Seq<PatchChangeView>,
    first: PatchChangeView,
    second: PatchChangeView,
    third: PatchChangeView,
)
    requires
        first.property == second.property,
        second.property == third.property,
        text_lt(first.version, second.version),
        text_lt(second.version, third.version),
        input.to_multiset() == seq![first, second, third].to_multiset(),
    ensures
        net_changes(input) == merge_runs(seq![first, second, third]),
{
    let sorted = seq![first, second, third];
    crate::text::lemma_text_lt_transitive(first.version, second.version, third.version);
    assert(record_lt(first, second) && record_lt(second, third) && record_lt(first, third));
    assert forall|i: int, j: int| 0 <= i < j < sorted.len() implies #[trigger] record_order()(
        sorted[i],
        sorted[j],
    ) by {
        assert(record_le(sorted[i], sorted[j]));
    }
    lemma_net_changes_of_sorted(input, sorted);
}

/// A note between two absolute changes on the same property keeps them
/// apart: with the note in a version between theirs, the three records come
/// out as three net changes, unmerged.
pub proof fn lemma_note_breaks_run(
    input: Seq<PatchChangeView>,
    property: Seq<char>,
    v1: Seq<char>,
    v2: Seq<char>,
    v3: Seq<char>,
    a: Seq<char>,
    b: Seq<char>,
    note: Seq<char>,
    c: Seq<char>,
    d: Seq<char>,
)
    requires
        text_lt(v1, v2),
        text_lt(v2, v3),
        input.to_multiset() == seq![
            PatchChangeView { property, version: v1, data: ChangeDataView::AbsoluteChange(a, b) },
            PatchChangeView { property, version: v2, data: ChangeDataView::OtherChange(note) },
            PatchChangeView { property, version: v3, data: ChangeDataView::AbsoluteChange(c, d) },
        ].to_multiset(),
    ensures
        net_changes(input) == seq![
            PatchChangeView { property, version: v1, data: ChangeDataView::AbsoluteChange(a, b) },
            PatchChangeView { property, version: v2, data: ChangeDataView::OtherChange(note) },
            PatchChangeView { property, version: v3, data: ChangeDataView::AbsoluteChange(c, d) },
        ],
{
    let first = PatchChangeView {
        property,
        version: v1,
        data: ChangeDataView::AbsoluteChange(a, b),
    };
    let second = PatchChangeView { property, version: v2, data: ChangeDataView::OtherChange(note) };
    let third = PatchChangeView {
        property,
        version: v3,
        data: ChangeDataView::AbsoluteChange(c, d),
    };
    lemma_three_in_order(input, first, second, third);
    let none = Seq::<PatchChangeView>::empty();
    lemma_merge_runs_push(none, first);
    lemma_merge_runs_push(none.push(first), second);
    lemma_merge_runs_push(none.push(first).push(second), third);
    assert(seq![first, second, third] =~= none.push(first).push(second).push(third));
    assert(merge_runs(none.push(first)) =~= seq![first]);
    assert(merge_runs(none.push(first).push(second)) =~= seq![first, second]);
    assert(merge_runs(none.push(first).push(second).push(third)) =~= seq![first, second, third]);
}

/// Two relative changes on one property, in two successive versions, merge
/// into one relative change by the sum of their amounts, in the later
/// version. Opposite amounts leave a relative change by zero.
pub proof fn lemma_relative_changes_add_up(
    input: Seq<PatchChangeView>,
    property: Seq<char>,
    v1: Seq<char>,
    v2: Seq<char>,
    x: int,
    y: int,
)
    requires
        text_lt(v1, v2),
        input.to_multiset() == seq![
            PatchChangeView { property, version: v1, data: ChangeDataView::RelativeChange(x) },
            PatchChangeView { property, version: v2, data: ChangeDataView::RelativeChange(y) },
        ].to_multiset(),
    ensures
        net_changes(input) == seq![
            PatchChangeView { property, version: v2, data: ChangeDataView::RelativeChange(x + y) },
        ],
        y == -x ==> net_changes(input) == seq![
            PatchChangeView { property, version: v2, data: ChangeDataView::RelativeChange(0) },
        ],
{
    let first = PatchChangeView { property, version: v1, data: ChangeDataView::RelativeChange(x) };
    let second = PatchChangeView { property, version: v2, data: ChangeDataView::RelativeChange(y) };
    let sorted = seq![first, second];
    assert(record_lt(first, second));
    assert forall|i: int, j: int| 0 <= i < j < sorted.len() implies #[trigger] record_order()(
        sorted[i],
        sorted[j],
    ) by {
        assert(record_le(sorted[i], sorted[j]));
    }
    lemma_net_changes_of_sorted(input, sorted);
    let none = Seq::<PatchChangeView>::empty();
    lemma_merge_runs_push(none, first);
    lemma_merge_runs_push(none.push(first), second);
    assert(sorted =~= none.push(first).push(second));
    assert(merge_runs(none.push(first)) =~= seq![first]);
    assert(merge_runs(none.push(first).push(second)) =~= seq![
        PatchChangeView { property, version: v2, data: ChangeDataView::RelativeChange(x + y) },
    ]);
}

/// A relative change and its opposite in the next version cancel: what is
/// left is a relative change by zero in the later version, and it is told
/// as `<property> unchanged`.
pub proof fn lemma_opposite_changes_cancel(
    input: Seq<PatchChangeView>,
    property: Seq<char>,
    v1: Seq<char>,
    v2: Seq<char>,
    x: int,
)
    requires
        text_lt(v1, v2),
        input.to_multiset() == seq![
            PatchChangeView { property, version: v1, data: ChangeDataView::RelativeChange(x) },
            PatchChangeView { property, version: v2, data: ChangeDataView::RelativeChange(-x) },
        ].to_multiset(),
    ensures
        net_changes(input) == seq![
            PatchChangeView { property, version: v2, data: ChangeDataView::RelativeChange(0) },
        ],
        rendered(net_changes(input)[0]) == property + UNCHANGED@,
{
    lemma_relative_changes_add_up(input, property, v1, v2, x, -x);
}

} // verus!
