//! The merge engine: the records of a range of releases, brought into order
//! and folded into net changes.

use crate::order::{
    lemma_record_lt_connected, lemma_record_lt_transitive, lemma_record_order_total, record_le,
    record_order, record_precedes,
};
use crate::record::{
    combine_records, sum_fits, ChangeData, PatchChange, PatchChangeView,
};
use vstd::multiset::Multiset;
use vstd::pervasive::unreached;
use vstd::prelude::*;
use vstd::relations::sorted_by;
use vstd::seq_lib::{
    lemma_sorted_unique, to_multiset_build, to_multiset_contains, to_multiset_insert,
};

verus! {

/// The records of `input` in merge order: by property, then by version, then
/// by data. Records that tie are equal, so the order of `input` plays no part.
pub open spec fn sorted_records(input: Seq<PatchChangeView>) -> Seq<PatchChangeView> {
    input.sort_by(record_order())
}

/// The runs of `sorted`, each folded into one record.
///
/// Records are taken from left to right. A record that combines with the
/// last net record takes its place, combined; one that does not (another
/// property, another kind of change, a note) is appended and starts the next
/// run.
pub open spec fn merge_runs(sorted: Seq<PatchChangeView>) -> Seq<PatchChangeView>
    decreases sorted.len(),
{
    if sorted.len() == 0 {
        Seq::empty()
    } else {
        let net = merge_runs(sorted.drop_last());
        let current = sorted.last();
        if net.len() == 0 {
            seq![current]
        } else {
            match combine_records(net.last(), current) {
                Ok(combined) => net.drop_last().push(combined),
                Err(_) => net.push(current),
            }
        }
    }
}

/// The net changes of `input`: its records in merge order, folded run by run.
pub open spec fn net_changes(input: Seq<PatchChangeView>) -> Seq<PatchChangeView> {
    merge_runs(sorted_records(input))
}

/// Whether every amount that `merge_runs` forms on the way through `sorted`
/// can be held in a `RelativeChange`.
pub open spec fn sums_fit(sorted: Seq<PatchChangeView>) -> bool
    decreases sorted.len(),
{
    if sorted.len() == 0 {
        true
    } else {
        let net = merge_runs(sorted.drop_last());
        &&& sums_fit(sorted.drop_last())
        &&& net.len() > 0 && net.last().property == sorted.last().property ==> sum_fits(
            net.last().data,
            sorted.last().data,
        )
    }
}

/// Whether the amount that two changes combine to can be held, as
/// `sum_fits` defines it.
fn amounts_fit(old: &ChangeData, new: &ChangeData) -> (fits: bool)
    ensures
        fits == sum_fits(old@, new@),
{
    match old {
        ChangeData::AbsoluteChange(_, _) => true,
        ChangeData::RelativeChange(x) => match new {
            ChangeData::AbsoluteChange(_, _) => true,
            ChangeData::RelativeChange(y) => x.checked_add(*y).is_some(),
            ChangeData::OtherChange(_) => true,
        },
        ChangeData::OtherChange(_) => true,
    }
}

/// No record is counted in an empty sequence.
proof fn lemma_empty_to_multiset()
    ensures
        Seq::<PatchChangeView>::empty().to_multiset() == Multiset::<PatchChangeView>::empty(),
{
    broadcast use vstd::multiset::group_multiset_axioms;

    let none = Seq::<PatchChangeView>::empty();
    assert forall|record: PatchChangeView| none.to_multiset().count(record) == 0 by {
        to_multiset_contains(none, record);
    }
}

/// Where `record` goes in `sorted` so that the order is kept.
fn insertion_point(sorted: &Vec<PatchChange>, record: &PatchChange) -> (at: usize)
    requires
        sorted_by(sorted.deep_view(), record_order()),
    ensures
        at <= sorted.len(),
        forall|j: int| 0 <= j < at ==> record_le(#[trigger] sorted[j]@, record@),
        forall|j: int| at <= j < sorted.len() ==> record_le(record@, #[trigger] sorted[j]@),
{
    let mut lo: usize = 0;
    let mut hi: usize = sorted.len();
    while lo < hi
        invariant
            lo <= hi <= sorted.len(),
            sorted_by(sorted.deep_view(), record_order()),
            forall|j: int| 0 <= j < lo ==> record_le(#[trigger] sorted[j]@, record@),
            forall|j: int| hi <= j < sorted.len() ==> record_le(record@, #[trigger] sorted[j]@),
        decreases hi - lo,
    {
        let mid = lo + (hi - lo) / 2;
        let ghost pivot = sorted[mid as int]@;
        let ghost views = sorted.deep_view();
        if record_precedes(&sorted[mid], record) {
            proof {
                assert forall|j: int| 0 <= j < mid + 1 implies record_le(
                    #[trigger] sorted[j]@,
                    record@,
                ) by {
                    if j < mid {
                        assert(record_order()(views[j], views[mid as int]));
                        if sorted[j]@ != pivot {
                            lemma_record_lt_transitive(sorted[j]@, pivot, record@);
                        }
                    }
                }
            }
            lo = mid + 1;
        } else {
            proof {
                lemma_record_lt_connected(pivot, record@);
                assert forall|j: int| mid <= j < sorted.len() implies record_le(
                    record@,
                    #[trigger] sorted[j]@,
                ) by {
                    if j > mid {
                        assert(record_order()(views[mid as int], views[j]));
                        if record@ != pivot && pivot != sorted[j]@ {
                            lemma_record_lt_transitive(record@, pivot, sorted[j]@);
                        }
                    }
                }
            }
            hi = mid;
        }
    }
    lo
}

/// The records in merge order.
pub fn sort_records(records: Vec<PatchChange>) -> (sorted: Vec<PatchChange>)
    ensures
        sorted.deep_view() == sorted_records(records.deep_view()),
{
    broadcast use vstd::multiset::group_multiset_axioms;

    let ghost input = records.deep_view();
    let mut rest = records;
    let mut sorted: Vec<PatchChange> = Vec::new();
    proof {
        assert(sorted.deep_view() =~= Seq::<PatchChangeView>::empty());
        lemma_empty_to_multiset();
    }
    loop
        invariant
            sorted_by(sorted.deep_view(), record_order()),
            sorted.deep_view().to_multiset().add(rest.deep_view().to_multiset())
                == input.to_multiset(),
        ensures
            sorted_by(sorted.deep_view(), record_order()),
            sorted.deep_view().to_multiset() == input.to_multiset(),
        decreases rest.len(),
    {
        let ghost placed = sorted.deep_view();
        let ghost waiting = rest.deep_view();
        match rest.pop() {
            None => {
                proof {
                    assert(waiting =~= Seq::<PatchChangeView>::empty());
                    lemma_empty_to_multiset();
                }
                break ;
            },
            Some(record) => {
                let at = insertion_point(&sorted, &record);
                sorted.insert(at, record);
                proof {
                    assert(rest.deep_view() =~= waiting.drop_last());
                    assert(waiting =~= waiting.drop_last().push(record@));
                    to_multiset_build(waiting.drop_last(), record@);
                    assert(sorted.deep_view() =~= placed.insert(at as int, record@));
                    to_multiset_insert(placed, at as int, record@);
                }
            },
        }
    }
    proof {
        lemma_record_order_total();
        input.lemma_sort_by_ensures(record_order());
        lemma_sorted_unique(sorted.deep_view(), sorted_records(input), record_order());
    }
    sorted
}

/// The runs of `sorted` folded into net records; nothing where an amount
/// cannot be held.
#[verifier::loop_isolation(false)]
fn fold_runs(sorted: Vec<PatchChange>) -> (net: Option<Vec<PatchChange>>)
    ensures
        net is Some <==> sums_fit(sorted.deep_view()),
        net matches Some(records) ==> records.deep_view() == merge_runs(sorted.deep_view()),
        net matches Some(records) ==> forall|i: int|
            0 <= i < records.len() ==> (#[trigger] records[i])@.wf(),
{
    let ghost items = sorted@;
    let ghost all = sorted.deep_view();
    let mut net: Vec<PatchChange> = Vec::new();
    for current in it: sorted
        invariant
            it.seq() == items,
            all.len() == items.len(),
            forall|i: int| 0 <= i < all.len() ==> (#[trigger] items[i])@ == all[i],
            sums_fit(all.take(it.index())),
            net.deep_view() == merge_runs(all.take(it.index())),
            forall|i: int| 0 <= i < net.len() ==> (#[trigger] net[i])@.wf(),
    {
        let ghost taken = it.index();
        let ghost prefix = all.take(taken);
        proof {
            use_type_invariant(&current);
            assert(all.take(taken + 1).drop_last() =~= prefix);
        }
        if net.len() == 0 {
            net.push(current);
        } else {
            let last = net.len() - 1;
            if *net[last].property() == *current.property() && !amounts_fit(
                net[last].data(),
                current.data(),
            ) {
                proof {
                    if sums_fit(all) {
                        lemma_sums_fit_prefix(all, taken + 1);
                    }
                }
                return None;
            }
            match PatchChange::diff(&net[last], &current) {
                Ok(combined) => {
                    net.pop();
                    net.push(combined);
                },
                Err(_) => {
                    net.push(current);
                },
            }
        }
    }
    proof {
        assert(all.take(all.len() as int) =~= all);
    }
    Some(net)
}

/// Where every amount fits, it fits on every prefix.
proof fn lemma_sums_fit_prefix(sorted: Seq<PatchChangeView>, n: int)
    requires
        0 <= n <= sorted.len(),
        sums_fit(sorted),
    ensures
        sums_fit(sorted.take(n)),
    decreases sorted.len(),
{
    if n == sorted.len() {
        assert(sorted.take(n) =~= sorted);
    } else {
        assert(sorted.drop_last().take(n) =~= sorted.take(n));
        lemma_sums_fit_prefix(sorted.drop_last(), n);
    }
}

/// The net changes of `records`, one for each run of records that combine;
/// nothing where an amount on the way cannot be held in a `RelativeChange`.
pub fn try_patch_diff(records: Vec<PatchChange>) -> (net: Option<Vec<PatchChange>>)
    ensures
        net is Some <==> sums_fit(sorted_records(records.deep_view())),
        net matches Some(changes) ==> changes.deep_view() == net_changes(records.deep_view()),
        net matches Some(changes) ==> forall|i: int|
            0 <= i < changes.len() ==> (#[trigger] changes[i])@.wf(),
{
    fold_runs(sort_records(records))
}

/// The net changes of `records`, one for each run of records that combine.
///
/// The records may come in any order. The versions are taken to sort in the
/// order in which the releases appeared.
pub fn patch_diff(records: Vec<PatchChange>) -> (net: Vec<PatchChange>)
    requires
        sums_fit(sorted_records(records.deep_view())),
    ensures
        net.deep_view() == net_changes(records.deep_view()),
        forall|i: int| 0 <= i < net.len() ==> (#[trigger] net[i])@.wf(),
{
    match try_patch_diff(records) {
        Some(net) => net,
        None => unreached(),
    }
}

} // verus!
