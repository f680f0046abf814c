//! Change records and the rule by which two of them combine.

use vstd::prelude::*;
use vstd::string::*;

verus! {

/// What stands between the segments of a property path.
pub const SEPARATOR: &'static str = " > ";

/// Why two changes did not combine.
#[derive(Debug, Clone, Copy, PartialEq, Eq, Structural)]
pub enum MergeError {
    /// The two changes are of different kinds.
    VariantMismatch,
    /// The changes are free-form notes, which never combine.
    Uncombinable,
    /// The two records speak of different properties.
    PropertyMismatch,
}

impl MergeError {
    /// A sentence that describes the error.
    pub fn message(&self) -> (text: String)
        ensures
            text@ == match *self {
                MergeError::VariantMismatch => "ChangeData variants are not equal"@,
                MergeError::Uncombinable => "ChangeData::OtherChange does not track diff"@,
                MergeError::PropertyMismatch => "PatchChange.property values do not match"@,
            },
    {
        match self {
            MergeError::VariantMismatch => "ChangeData variants are not equal".to_owned(),
            MergeError::Uncombinable => "ChangeData::OtherChange does not track diff".to_owned(),
            MergeError::PropertyMismatch => "PatchChange.property values do not match".to_owned(),
        }
    }
}

/// What one edit did to a property.
#[derive(Debug, PartialEq, PartialOrd, Eq, Ord)]
pub enum ChangeData {
    /// The value changed from the first text to the second.
    AbsoluteChange(String, String),
    /// The value moved by a signed amount; a positive amount is an increase.
    RelativeChange(i32),
    /// A free-form note.
    OtherChange(String),
}

/// The mathematical content of a `ChangeData`.
pub enum ChangeDataView {
    AbsoluteChange(Seq<char>, Seq<char>),
    RelativeChange(int),
    OtherChange(Seq<char>),
}

impl View for ChangeData {
    type V = ChangeDataView;

    open spec fn view(&self) -> ChangeDataView {
        match self {
            ChangeData::AbsoluteChange(old, new) => ChangeDataView::AbsoluteChange(old@, new@),
            ChangeData::RelativeChange(delta) => ChangeDataView::RelativeChange(*delta as int),
            ChangeData::OtherChange(note) => ChangeDataView::OtherChange(note@),
        }
    }
}

impl DeepView for ChangeData {
    type V = ChangeDataView;

    open spec fn deep_view(&self) -> ChangeDataView {
        self@
    }
}

/// Whether two changes are of the same kind.
pub open spec fn same_variant(a: ChangeDataView, b: ChangeDataView) -> bool {
    match a {
        ChangeDataView::AbsoluteChange(_, _) => b is AbsoluteChange,
        ChangeDataView::RelativeChange(_) => b is RelativeChange,
        ChangeDataView::OtherChange(_) => b is OtherChange,
    }
}

/// The net effect of `old` followed by `new`.
///
/// Two absolute changes give the change from the first value of `old` to the
/// last value of `new`; two relative changes give the sum of their amounts;
/// two notes do not combine, nor do changes of different kinds.
pub open spec fn combine_data(old: ChangeDataView, new: ChangeDataView) -> Result<
    ChangeDataView,
    MergeError,
> {
    if !same_variant(old, new) {
        Err(MergeError::VariantMismatch)
    } else {
        match old {
            ChangeDataView::AbsoluteChange(first, _) => Ok(
                ChangeDataView::AbsoluteChange(first, new->AbsoluteChange_1),
            ),
            ChangeDataView::RelativeChange(x) => Ok(
                ChangeDataView::RelativeChange(x + new->RelativeChange_0),
            ),
            ChangeDataView::OtherChange(_) => Err(MergeError::Uncombinable),
        }
    }
}

/// Whether the amount that `old` and `new` combine to, if they are both
/// relative changes, can be held in a `RelativeChange`.
pub open spec fn sum_fits(old: ChangeDataView, new: ChangeDataView) -> bool {
    match combine_data(old, new) {
        Ok(ChangeDataView::RelativeChange(sum)) => i32::MIN <= sum <= i32::MAX,
        Ok(ChangeDataView::AbsoluteChange(_, _)) => true,
        Ok(ChangeDataView::OtherChange(_)) => true,
        Err(_) => true,
    }
}

/// Changes combine exactly when they are of one kind that tracks a net
/// effect; otherwise the reason tells which of the two failed.
pub proof fn lemma_combine_data_by_variant(old: ChangeDataView, new: ChangeDataView)
    ensures
        combine_data(old, new) is Ok <==> same_variant(old, new) && !(old is OtherChange),
        combine_data(old, new) == Err::<ChangeDataView, MergeError>(MergeError::VariantMismatch)
            <==> !same_variant(old, new),
        combine_data(old, new) == Err::<ChangeDataView, MergeError>(MergeError::Uncombinable)
            <==> old is OtherChange && new is OtherChange,
        combine_data(old, new) matches Ok(net) ==> same_variant(net, old),
{
}

/// Combining is associative: of three changes in a row, it does not matter
/// which two are combined first.
pub proof fn lemma_combine_data_associative(a: ChangeDataView, b: ChangeDataView, c: ChangeDataView)
    requires
        combine_data(a, b) is Ok,
        combine_data(b, c) is Ok,
    ensures
        combine_data(combine_data(a, b)->Ok_0, c) == combine_data(a, combine_data(b, c)->Ok_0),
        combine_data(combine_data(a, b)->Ok_0, c) is Ok,
{
}

impl Clone for ChangeData {
    fn clone(&self) -> (copy: Self)
        ensures
            copy@ == self@,
    {
        match self {
            ChangeData::AbsoluteChange(old, new) => ChangeData::AbsoluteChange(
                old.clone(),
                new.clone(),
            ),
            ChangeData::RelativeChange(delta) => ChangeData::RelativeChange(*delta),
            ChangeData::OtherChange(note) => ChangeData::OtherChange(note.clone()),
        }
    }
}

impl ChangeData {
    /// Whether `a` and `b` are of the same kind.
    pub fn variant_eq(a: &ChangeData, b: &ChangeData) -> (same: bool)
        ensures
            same == same_variant(a@, b@),
    {
        match a {
            ChangeData::AbsoluteChange(_, _) => match b {
                ChangeData::AbsoluteChange(_, _) => true,
                ChangeData::RelativeChange(_) => false,
                ChangeData::OtherChange(_) => false,
            },
            ChangeData::RelativeChange(_) => match b {
                ChangeData::AbsoluteChange(_, _) => false,
                ChangeData::RelativeChange(_) => true,
                ChangeData::OtherChange(_) => false,
            },
            ChangeData::OtherChange(_) => match b {
                ChangeData::AbsoluteChange(_, _) => false,
                ChangeData::RelativeChange(_) => false,
                ChangeData::OtherChange(_) => true,
            },
        }
    }

    /// The net effect of `old` followed by `new`, as `combine_data` defines it.
    pub fn diff(old: &ChangeData, new: &ChangeData) -> (net: Result<ChangeData, MergeError>)
        requires
            sum_fits(old@, new@),
        ensures
            match combine_data(old@, new@) {
                Ok(data) => net matches Ok(d) && d@ == data,
                Err(reason) => net == Err::<ChangeData, MergeError>(reason),
            },
    {
        match old {
            ChangeData::AbsoluteChange(first, _) => match new {
                ChangeData::AbsoluteChange(_, last) => Ok(
                    ChangeData::AbsoluteChange(first.clone(), last.clone()),
                ),
                ChangeData::RelativeChange(_) => Err(MergeError::VariantMismatch),
                ChangeData::OtherChange(_) => Err(MergeError::VariantMismatch),
            },
            ChangeData::RelativeChange(x) => match new {
                ChangeData::AbsoluteChange(_, _) => Err(MergeError::VariantMismatch),
                ChangeData::RelativeChange(y) => Ok(ChangeData::RelativeChange(*x + *y)),
                ChangeData::OtherChange(_) => Err(MergeError::VariantMismatch),
            },
            ChangeData::OtherChange(_) => match new {
                ChangeData::AbsoluteChange(_, _) => Err(MergeError::VariantMismatch),
                ChangeData::RelativeChange(_) => Err(MergeError::VariantMismatch),
                ChangeData::OtherChange(_) => Err(MergeError::Uncombinable),
            },
        }
    }
}

/// One observed edit: what changed, in which release, and how.
#[derive(Debug, PartialEq, PartialOrd, Eq, Ord)]
pub struct PatchChange {
    property: String,
    version: String,
    data: ChangeData,
}

/// The mathematical content of a `PatchChange`.
pub struct PatchChangeView {
    /// Path of the thing that changed; the key by which records merge.
    pub property: Seq<char>,
    /// The release in which the edit was observed.
    pub version: Seq<char>,
    /// What the edit did.
    pub data: ChangeDataView,
}

impl PatchChangeView {
    /// A record names the property it is about.
    pub open spec fn wf(self) -> bool {
        self.property.len() > 0
    }
}

impl View for PatchChange {
    type V = PatchChangeView;

    closed spec fn view(&self) -> PatchChangeView {
        PatchChangeView { property: self.property@, version: self.version@, data: self.data@ }
    }
}

impl DeepView for PatchChange {
    type V = PatchChangeView;

    open spec fn deep_view(&self) -> PatchChangeView {
        self@
    }
}

/// The net record of `old` followed by `new`.
///
/// Records of different properties do not combine. Otherwise the data
/// combine as `combine_data` says, and the net record carries the property of
/// both and the version of `new`.
pub open spec fn combine_records(old: PatchChangeView, new: PatchChangeView) -> Result<
    PatchChangeView,
    MergeError,
> {
    if old.property != new.property {
        Err(MergeError::PropertyMismatch)
    } else {
        match combine_data(old.data, new.data) {
            Ok(data) => Ok(
                PatchChangeView { property: old.property, version: new.version, data },
            ),
            Err(reason) => Err(reason),
        }
    }
}

/// Combining records is associative, as combining their data is.
pub proof fn lemma_combine_records_associative(
    a: PatchChangeView,
    b: PatchChangeView,
    c: PatchChangeView,
)
    requires
        combine_records(a, b) is Ok,
        combine_records(b, c) is Ok,
    ensures
        combine_records(combine_records(a, b)->Ok_0, c) == combine_records(
            a,
            combine_records(b, c)->Ok_0,
        ),
        combine_records(combine_records(a, b)->Ok_0, c) is Ok,
{
    lemma_combine_data_associative(a.data, b.data, c.data);
}

impl Clone for PatchChange {
    fn clone(&self) -> (copy: Self)
        ensures
            copy@ == self@,
    {
        proof {
            use_type_invariant(self);
        }
        PatchChange {
            property: self.property.clone(),
            version: self.version.clone(),
            data: self.data.clone(),
        }
    }
}

impl PatchChange {
    /// Every record names the property it is about.
    #[verifier::type_invariant]
    pub open spec fn well_formed(&self) -> bool {
        self@.wf()
    }

    /// A record of `data` on `property`, observed in `version`.
    pub fn new(property: &String, version: &String, data: ChangeData) -> (record: Self)
        requires
            property@.len() > 0,
        ensures
            record@ == (PatchChangeView { property: property@, version: version@, data: data@ }),
            record@.wf(),
    {
        PatchChange { property: property.clone(), version: version.clone(), data }
    }

    /// Path of the thing that changed. It is never empty.
    pub fn property(&self) -> (property: &String)
        ensures
            property@ == self@.property,
            self@.wf(),
    {
        proof {
            use_type_invariant(self);
        }
        &self.property
    }

    /// The release in which the edit was observed.
    pub fn version(&self) -> (version: &String)
        ensures
            version@ == self@.version,
    {
        &self.version
    }

    /// What the edit did.
    pub fn data(&self) -> (data: &ChangeData)
        ensures
            data@ == self@.data,
    {
        &self.data
    }

    /// The net record of `old` followed by `new`, as `combine_records`
    /// defines it.
    pub fn diff(old: &PatchChange, new: &PatchChange) -> (net: Result<PatchChange, MergeError>)
        requires
            old@.property == new@.property ==> sum_fits(old@.data, new@.data),
        ensures
            match combine_records(old@, new@) {
                Ok(record) => net matches Ok(r) && r@ == record && r@.wf(),
                Err(reason) => net == Err::<PatchChange, MergeError>(reason),
            },
    {
        proof {
            use_type_invariant(old);
        }
        if old.property == new.property {
            match ChangeData::diff(&old.data, &new.data) {
                Ok(data) => Ok(PatchChange::new(&old.property, &new.version, data)),
                Err(reason) => Err(reason),
            }
        } else {
            Err(MergeError::PropertyMismatch)
        }
    }
}

} // verus!
