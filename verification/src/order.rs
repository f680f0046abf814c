//! The order in which records are merged: by property, then by version, then
//! by what the edit did.

use crate::record::{ChangeData, ChangeDataView, PatchChange, PatchChangeView};
use crate::text::{
    lemma_text_lt_asymmetric, lemma_text_lt_connected, lemma_text_lt_irreflexive,
    lemma_text_lt_transitive, text_less, text_lt,
};
use vstd::prelude::*;
use vstd::relations::total_ordering;

verus! {

/// Place of a kind of change among the kinds: absolute changes first, then
/// relative changes, then notes.
pub open spec fn variant_rank(data: ChangeDataView) -> int {
    match data {
        ChangeDataView::AbsoluteChange(_, _) => 0,
        ChangeDataView::RelativeChange(_) => 1,
        ChangeDataView::OtherChange(_) => 2,
    }
}

/// Strict order on changes: by kind, then by what the change holds, from
/// left to right.
pub open spec fn data_lt(a: ChangeDataView, b: ChangeDataView) -> bool {
    if variant_rank(a) != variant_rank(b) {
        variant_rank(a) < variant_rank(b)
    } else {
        match a {
            ChangeDataView::AbsoluteChange(a_old, a_new) => {
                let b_old = b->AbsoluteChange_0;
                let b_new = b->AbsoluteChange_1;
                text_lt(a_old, b_old) || (a_old == b_old && text_lt(a_new, b_new))
            },
            ChangeDataView::RelativeChange(x) => x < b->RelativeChange_0,
            ChangeDataView::OtherChange(s) => text_lt(s, b->OtherChange_0),
        }
    }
}

/// Strict order on records: by property, then by version, then by data.
pub open spec fn record_lt(a: PatchChangeView, b: PatchChangeView) -> bool {
    ||| text_lt(a.property, b.property)
    ||| a.property == b.property && text_lt(a.version, b.version)
    ||| a.property == b.property && a.version == b.version && data_lt(a.data, b.data)
}

/// Order on records, equal records included.
pub open spec fn record_le(a: PatchChangeView, b: PatchChangeView) -> bool {
    a == b || record_lt(a, b)
}

/// `record_le` as a relation, for the sequence functions that take one.
pub open spec fn record_order() -> spec_fn(PatchChangeView, PatchChangeView) -> bool {
    |a: PatchChangeView, b: PatchChangeView| record_le(a, b)
}

/// No change comes before itself.
pub proof fn lemma_data_lt_irreflexive(a: ChangeDataView)
    ensures
        !data_lt(a, a),
{
    match a {
        ChangeDataView::AbsoluteChange(old, new) => {
            lemma_text_lt_irreflexive(old);
            lemma_text_lt_irreflexive(new);
        },
        ChangeDataView::RelativeChange(_) => {},
        ChangeDataView::OtherChange(note) => {
            lemma_text_lt_irreflexive(note);
        },
    }
}

/// Of two changes, at most one comes before the other.
pub proof fn lemma_data_lt_asymmetric(a: ChangeDataView, b: ChangeDataView)
    requires
        data_lt(a, b),
    ensures
        !data_lt(b, a),
{
    match (a, b) {
        (
            ChangeDataView::AbsoluteChange(a_old, a_new),
            ChangeDataView::AbsoluteChange(b_old, b_new),
        ) => {
            lemma_text_lt_irreflexive(a_old);
            if text_lt(a_old, b_old) {
                lemma_text_lt_asymmetric(a_old, b_old);
            } else {
                lemma_text_lt_asymmetric(a_new, b_new);
            }
        },
        (ChangeDataView::OtherChange(s), ChangeDataView::OtherChange(t)) => {
            lemma_text_lt_asymmetric(s, t);
        },
        _ => {},
    }
}

/// The order on changes is transitive.
pub proof fn lemma_data_lt_transitive(a: ChangeDataView, b: ChangeDataView, c: ChangeDataView)
    requires
        data_lt(a, b),
        data_lt(b, c),
    ensures
        data_lt(a, c),
{
    match (a, b, c) {
        (
            ChangeDataView::AbsoluteChange(a_old, a_new),
            ChangeDataView::AbsoluteChange(b_old, b_new),
            ChangeDataView::AbsoluteChange(c_old, c_new),
        ) => {
            if text_lt(a_old, b_old) && text_lt(b_old, c_old) {
                lemma_text_lt_transitive(a_old, b_old, c_old);
            } else if a_old == b_old && b_old == c_old {
                lemma_text_lt_transitive(a_new, b_new, c_new);
            }
        },
        (
            ChangeDataView::OtherChange(s),
            ChangeDataView::OtherChange(t),
            ChangeDataView::OtherChange(u),
        ) => {
            lemma_text_lt_transitive(s, t, u);
        },
        _ => {},
    }
}

/// Two different changes are always ordered one way or the other.
pub proof fn lemma_data_lt_connected(a: ChangeDataView, b: ChangeDataView)
    ensures
        a == b || data_lt(a, b) || data_lt(b, a),
{
    match (a, b) {
        (
            ChangeDataView::AbsoluteChange(a_old, a_new),
            ChangeDataView::AbsoluteChange(b_old, b_new),
        ) => {
            lemma_text_lt_connected(a_old, b_old);
            lemma_text_lt_connected(a_new, b_new);
        },
        (ChangeDataView::OtherChange(s), ChangeDataView::OtherChange(t)) => {
            lemma_text_lt_connected(s, t);
        },
        _ => {},
    }
}

/// No record comes before itself.
pub proof fn lemma_record_lt_irreflexive(a: PatchChangeView)
    ensures
        !record_lt(a, a),
{
    lemma_text_lt_irreflexive(a.property);
    lemma_text_lt_irreflexive(a.version);
    lemma_data_lt_irreflexive(a.data);
}

/// Of two records, at most one comes before the other.
pub proof fn lemma_record_lt_asymmetric(a: PatchChangeView, b: PatchChangeView)
    requires
        record_lt(a, b),
    ensures
        !record_lt(b, a),
{
    lemma_text_lt_irreflexive(a.property);
    lemma_text_lt_irreflexive(a.version);
    if text_lt(a.property, b.property) {
        lemma_text_lt_asymmetric(a.property, b.property);
    } else if text_lt(a.version, b.version) {
        lemma_text_lt_asymmetric(a.version, b.version);
    } else {
        lemma_data_lt_asymmetric(a.data, b.data);
    }
}

/// The order on records is transitive.
pub proof fn lemma_record_lt_transitive(a: PatchChangeView, b: PatchChangeView, c: PatchChangeView)
    requires
        record_lt(a, b),
        record_lt(b, c),
    ensures
        record_lt(a, c),
{
    if text_lt(a.property, b.property) && text_lt(b.property, c.property) {
        lemma_text_lt_transitive(a.property, b.property, c.property);
    } else if a.property == b.property && b.property == c.property {
        if text_lt(a.version, b.version) && text_lt(b.version, c.version) {
            lemma_text_lt_transitive(a.version, b.version, c.version);
        } else if a.version == b.version && b.version == c.version {
            lemma_data_lt_transitive(a.data, b.data, c.data);
        }
    }
}

/// Two different records are always ordered one way or the other.
pub proof fn lemma_record_lt_connected(a: PatchChangeView, b: PatchChangeView)
    ensures
        a == b || record_lt(a, b) || record_lt(b, a),
{
    lemma_text_lt_connected(a.property, b.property);
    lemma_text_lt_connected(a.version, b.version);
    lemma_data_lt_connected(a.data, b.data);
}

/// `record_le` is a total order: any two records compare, and only equal
/// records compare both ways.
pub proof fn lemma_record_order_total()
    ensures
        total_ordering(record_order()),
{
    let leq = record_order();
    assert forall|x: PatchChangeView, y: PatchChangeView| #[trigger]
        leq(x, y) && #[trigger] leq(y, x) implies x == y by {
        if record_lt(x, y) {
            lemma_record_lt_asymmetric(x, y);
        }
    }
    assert forall|x: PatchChangeView, y: PatchChangeView, z: PatchChangeView| #[trigger]
        leq(x, y) && #[trigger] leq(y, z) implies leq(x, z) by {
        if record_lt(x, y) && record_lt(y, z) {
            lemma_record_lt_transitive(x, y, z);
        }
    }
    assert forall|x: PatchChangeView, y: PatchChangeView| #[trigger]
        leq(x, y) || #[trigger] leq(y, x) by {
        lemma_record_lt_connected(x, y);
    }
}

/// Whether change `a` comes strictly before change `b`.
pub fn data_precedes(a: &ChangeData, b: &ChangeData) -> (before: bool)
    ensures
        before == data_lt(a@, b@),
{
    match a {
        ChangeData::AbsoluteChange(a_old, a_new) => match b {
            ChangeData::AbsoluteChange(b_old, b_new) => {
                if *a_old == *b_old {
                    proof {
                        lemma_text_lt_irreflexive(a_old@);
                    }
                    text_less(a_new.as_str(), b_new.as_str())
                } else {
                    text_less(a_old.as_str(), b_old.as_str())
                }
            },
            ChangeData::RelativeChange(_) => true,
            ChangeData::OtherChange(_) => true,
        },
        ChangeData::RelativeChange(x) => match b {
            ChangeData::AbsoluteChange(_, _) => false,
            ChangeData::RelativeChange(y) => *x < *y,
            ChangeData::OtherChange(_) => true,
        },
        ChangeData::OtherChange(s) => match b {
            ChangeData::AbsoluteChange(_, _) => false,
            ChangeData::RelativeChange(_) => false,
            ChangeData::OtherChange(t) => text_less(s.as_str(), t.as_str()),
        },
    }
}

/// Whether record `a` comes strictly before record `b`.
pub fn record_precedes(a: &PatchChange, b: &PatchChange) -> (before: bool)
    ensures
        before == record_lt(a@, b@),
{
    if !(*a.property() == *b.property()) {
        text_less(a.property().as_str(), b.property().as_str())
    } else if !(*a.version() == *b.version()) {
        proof {
            lemma_text_lt_irreflexive(a@.property);
        }
        text_less(a.version().as_str(), b.version().as_str())
    } else {
        proof {
            lemma_text_lt_irreflexive(a@.property);
            lemma_text_lt_irreflexive(a@.version);
        }
        data_precedes(a.data(), b.data())
    }
}

} // verus!
