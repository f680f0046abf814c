//! The renderer: from a change record back to a line of text.

use crate::direction::{absolute_change_direction, change_direction};
use crate::number::{decimal_text, magnitude, write_magnitude};
use crate::record::{ChangeData, ChangeDataView, PatchChange, PatchChangeView, SEPARATOR};
use crate::text::{lemma_split_piece_occurs, occurs_at, occurs_in, split, text_contains};
use vstd::prelude::*;
use vstd::string::*;

verus! {

/// The word that marks the property of a talent.
pub const TALENT: &'static str = "Talent";

/// Between the parts of a line.
pub const SPACE: &'static str = " ";

/// Between the values of a replaced talent.
pub const REPLACED_WITH: &'static str = " replaced with ";

/// Before the old value of an absolute change.
pub const FROM: &'static str = " from ";

/// Before the new value of an absolute change.
pub const TO: &'static str = " to ";

/// After the property of a relative change by zero.
pub const UNCHANGED: &'static str = " unchanged";

/// After the property of a relative change upwards.
pub const INCREASED_BY: &'static str = " increased by ";

/// After the property of a relative change downwards.
pub const DECREASED_BY: &'static str = " decreased by ";

/// Whether a property is that of a talent: its path holds the word `Talent`.
pub open spec fn is_talent(property: Seq<char>) -> bool {
    occurs_in(property, TALENT@)
}

/// The line that tells of an absolute change.
///
/// A talent is told as replaced. Any other value is told with the word for
/// the direction in which it moved.
pub open spec fn rendered_absolute(property: Seq<char>, old: Seq<char>, new: Seq<char>) -> Seq<
    char,
> {
    if is_talent(property) {
        property + SPACE@ + old + REPLACED_WITH@ + new
    } else {
        property + SPACE@ + change_direction(old, new) + FROM@ + old + TO@ + new
    }
}

/// The line that tells of a relative change: the verb by the sign of the
/// amount, then the size of the amount without its sign. An amount of zero
/// is told as unchanged.
pub open spec fn rendered_relative(property: Seq<char>, delta: int) -> Seq<char> {
    if delta == 0 {
        property + UNCHANGED@
    } else if delta < 0 {
        property + DECREASED_BY@ + decimal_text(magnitude(delta))
    } else {
        property + INCREASED_BY@ + decimal_text(magnitude(delta))
    }
}

/// The line that tells of a record.
pub open spec fn rendered(record: PatchChangeView) -> Seq<char> {
    match record.data {
        ChangeDataView::AbsoluteChange(old, new) => rendered_absolute(record.property, old, new),
        ChangeDataView::RelativeChange(delta) => rendered_relative(record.property, delta),
        ChangeDataView::OtherChange(note) => record.property + SEPARATOR@ + note,
    }
}

/// An absolute change on the property of a talent is told as
/// `<property> <old> replaced with <new>`, whatever the values are: their
/// direction is not looked at.
pub proof fn lemma_talent_is_replaced(record: PatchChangeView, old: Seq<char>, new: Seq<char>)
    requires
        record.data == ChangeDataView::AbsoluteChange(old, new),
        is_talent(record.property),
    ensures
        rendered(record) == record.property + SPACE@ + old + REPLACED_WITH@ + new,
{
}

/// An absolute change on a property of which one segment holds the word
/// `Talent` is told as replaced.
pub proof fn lemma_talent_segment_is_replaced(
    record: PatchChangeView,
    old: Seq<char>,
    new: Seq<char>,
    i: int,
)
    requires
        record.data == ChangeDataView::AbsoluteChange(old, new),
        0 <= i < split(record.property, SEPARATOR@).len(),
        occurs_in(split(record.property, SEPARATOR@)[i], TALENT@),
    ensures
        rendered(record) == record.property + SPACE@ + old + REPLACED_WITH@ + new,
{
    let segment = split(record.property, SEPARATOR@)[i];
    let at = lemma_split_piece_occurs(record.property, SEPARATOR@, i);
    let within = choose|within: int| occurs_at(segment, TALENT@, within);
    assert(segment.subrange(within, within + TALENT@.len()) =~= record.property.subrange(
        at + within,
        at + within + TALENT@.len(),
    ));
    assert(occurs_at(record.property, TALENT@, at + within));
}

/// A relative change by zero is told as `<property> unchanged`.
pub proof fn lemma_zero_is_unchanged(record: PatchChangeView)
    requires
        record.data == ChangeDataView::RelativeChange(0),
    ensures
        rendered(record) == record.property + UNCHANGED@,
{
}

impl PatchChange {
    /// The line that tells of this record, as `rendered` defines it.
    pub fn write_text(&self) -> (line: String)
        ensures
            line@ == rendered(self@),
    {
        let mut line = self.property().clone();
        match self.data() {
            ChangeData::AbsoluteChange(old, new) => {
                line.append(SPACE);
                if text_contains(self.property().as_str(), TALENT) {
                    line.append(old.as_str());
                    line.append(REPLACED_WITH);
                    line.append(new.as_str());
                } else {
                    let direction = absolute_change_direction(old, new);
                    line.append(direction.as_str());
                    line.append(FROM);
                    line.append(old.as_str());
                    line.append(TO);
                    line.append(new.as_str());
                }
            },
            ChangeData::RelativeChange(delta) => {
                if *delta == 0 {
                    line.append(UNCHANGED);
                } else {
                    if *delta < 0 {
                        line.append(DECREASED_BY);
                    } else {
                        line.append(INCREASED_BY);
                    }
                    let size = write_magnitude(*delta);
                    line.append(size.as_str());
                }
            },
            ChangeData::OtherChange(note) => {
                line.append(SEPARATOR);
                line.append(note.as_str());
            },
        }
        line
    }
}

} // verus!
