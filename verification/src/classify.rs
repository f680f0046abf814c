//! The classifier: from a changelog line to a change record.
//!
//! The rules are a fixed list of patterns, each with the shape of the record
//! it stands for. A line is tried against them in the order of the list, and
//! the first pattern found in it decides. A line that no pattern is found in,
//! or whose parts make no record, is kept whole as a note.

use crate::direction::DECREASED;
use crate::number::{i32_of, parse_i32};
use crate::pattern::{
    captures, group, group_text, regex_captures, Groups, ABS_NUM_STR, ABS_TXT_STR, NEW_NUM_STR,
    REL_NUM_STR,
};
use crate::record::{ChangeData, ChangeDataView, PatchChange, PatchChangeView, SEPARATOR};
use crate::text::{
    before_first, lemma_before_first_has_none, lemma_find_from,
    lemma_trim_has_no_white_space_around, occurs_in, text_before_first, text_equal, trim,
    trim_text, white_space,
};
use vstd::prelude::*;
use vstd::string::*;

verus! {

/// How the groups that a pattern took make a record.
#[derive(Debug, Clone, Copy, PartialEq, Eq, Structural)]
pub enum Shape {
    /// Groups 1, 2 and 3 hold a subject, an old value and a new value.
    Absolute,
    /// Groups 1, 2 and 3 hold a subject, a verb and an amount.
    Relative,
    /// Groups 1 and 2 hold a value and a subject; the old value is zero.
    Grant,
}

/// How many rules there are.
pub const RULE_COUNT: usize = 4;

/// Rule `i`: a pattern, and the shape of the record of a line in which it is
/// found. The rules are tried from rule 0 on: an absolute change, a relative
/// change, a replaced talent, a granted value.
pub open spec fn rule_at(i: int) -> (Seq<char>, Shape) {
    if i == 0 {
        (ABS_NUM_STR@, Shape::Absolute)
    } else if i == 1 {
        (REL_NUM_STR@, Shape::Relative)
    } else if i == 2 {
        (ABS_TXT_STR@, Shape::Absolute)
    } else {
        (NEW_NUM_STR@, Shape::Grant)
    }
}

/// Rule `i`, as `rule_at` defines it.
pub fn rule(i: usize) -> (pair: (&'static str, Shape))
    requires
        i < RULE_COUNT,
    ensures
        (pair.0@, pair.1) == rule_at(i as int),
{
    if i == 0 {
        (ABS_NUM_STR, Shape::Absolute)
    } else if i == 1 {
        (REL_NUM_STR, Shape::Relative)
    } else if i == 2 {
        (ABS_TXT_STR, Shape::Absolute)
    } else {
        (NEW_NUM_STR, Shape::Grant)
    }
}

/// What opens an annotation at the end of a line.
pub const ANNOTATION_START: &'static str = " (";

/// The old value of a property that a line grants for the first time.
pub const NO_VALUE: &'static str = "0";

/// A line as it is classified: without white space around it, and without
/// what follows the first ` (`.
pub open spec fn normalized(raw: Seq<char>) -> Seq<char> {
    before_first(trim(raw), ANNOTATION_START@)
}

/// A normalized line holds no annotation, and no white space before its
/// first character.
pub proof fn lemma_normalized_is_bare(raw: Seq<char>)
    ensures
        !occurs_in(normalized(raw), ANNOTATION_START@),
        normalized(raw).len() > 0 ==> !white_space(normalized(raw)[0]),
{
    reveal_strlit(" (");
    lemma_before_first_has_none(trim(raw), ANNOTATION_START@);
    lemma_trim_has_no_white_space_around(raw);
    lemma_find_from(trim(raw), ANNOTATION_START@, 0);
}

/// The property of a line that names a subject: the context, the separator,
/// the subject.
pub open spec fn subject_property(context: Seq<char>, subject: Seq<char>) -> Seq<char> {
    context + SEPARATOR@ + subject
}

/// The record of a line in which nothing was recognised: a note of the whole
/// line, on the context itself.
pub open spec fn note_record(line: Seq<char>, context: Seq<char>, version: Seq<char>)
    -> PatchChangeView {
    PatchChangeView { property: context, version, data: ChangeDataView::OtherChange(line) }
}

/// The record of a line that gives a subject, an old and a new value, in
/// groups 1, 2 and 3.
pub open spec fn absolute_record(found: Groups, context: Seq<char>, version: Seq<char>) -> Option<
    PatchChangeView,
> {
    match (group(found, 1), group(found, 2), group(found, 3)) {
        (Some(subject), Some(old), Some(new)) => Some(
            PatchChangeView {
                property: subject_property(context, subject),
                version,
                data: ChangeDataView::AbsoluteChange(old, new),
            },
        ),
        _ => None,
    }
}

/// The amount of a relative change: the integer that `amount` writes, made
/// negative where the verb is `decreased`. Nothing where `amount` writes no
/// 32-bit integer, or the signed amount is none.
pub open spec fn signed_amount(verb: Seq<char>, amount: Seq<char>) -> Option<int> {
    match i32_of(amount) {
        Some(n) => {
            let delta = if verb == DECREASED@ {
                -n
            } else {
                n
            };
            if i32::MIN <= delta <= i32::MAX {
                Some(delta)
            } else {
                None
            }
        },
        None => None,
    }
}

/// The record of a line that gives a subject, a verb and an amount, in
/// groups 1, 2 and 3.
pub open spec fn relative_record(found: Groups, context: Seq<char>, version: Seq<char>) -> Option<
    PatchChangeView,
> {
    match (group(found, 1), group(found, 2), group(found, 3)) {
        (Some(subject), Some(verb), Some(amount)) => match signed_amount(verb, amount) {
            Some(delta) => Some(
                PatchChangeView {
                    property: subject_property(context, subject),
                    version,
                    data: ChangeDataView::RelativeChange(delta),
                },
            ),
            None => None,
        },
        _ => None,
    }
}

/// The record of a line that grants a value, in group 1, to a subject, in
/// group 2: a change from zero to that value.
pub open spec fn grant_record(found: Groups, context: Seq<char>, version: Seq<char>) -> Option<
    PatchChangeView,
> {
    match (group(found, 1), group(found, 2)) {
        (Some(value), Some(subject)) => Some(
            PatchChangeView {
                property: subject_property(context, subject),
                version,
                data: ChangeDataView::AbsoluteChange(NO_VALUE@, value),
            },
        ),
        _ => None,
    }
}

/// The record that the groups `found` make in the shape given; nothing
/// where a group is missing or the amount of a relative change is none.
pub open spec fn shaped_record(
    shape: Shape,
    found: Groups,
    context: Seq<char>,
    version: Seq<char>,
) -> Option<PatchChangeView> {
    match shape {
        Shape::Absolute => absolute_record(found, context, version),
        Shape::Relative => relative_record(found, context, version),
        Shape::Grant => grant_record(found, context, version),
    }
}

/// `record`, or `note` where there is none.
pub open spec fn or_note(record: Option<PatchChangeView>, note: PatchChangeView)
    -> PatchChangeView {
    match record {
        Some(r) => r,
        None => note,
    }
}

/// The record of `line` by the rules from rule `from` on, where `found[i]`
/// is what the search for the pattern of rule `i` found in the line.
pub open spec fn classify_from(
    line: Seq<char>,
    context: Seq<char>,
    version: Seq<char>,
    found: Seq<Groups>,
    from: int,
) -> PatchChangeView
    decreases found.len() - from,
{
    let note = note_record(line, context, version);
    if from < 0 || from >= found.len() || from >= RULE_COUNT {
        note
    } else if found[from] is Some {
        or_note(shaped_record(rule_at(from).1, found[from], context, version), note)
    } else {
        classify_from(line, context, version, found, from + 1)
    }
}

/// The record of `line`, where `found[i]` is what the search for the pattern
/// of rule `i` found in it.
///
/// The first rule whose pattern was found decides. Where the groups it took
/// make no record, and where no pattern was found, the line is a note.
pub open spec fn classify(
    line: Seq<char>,
    context: Seq<char>,
    version: Seq<char>,
    found: Seq<Groups>,
) -> PatchChangeView {
    classify_from(line, context, version, found, 0)
}

/// What the search for the pattern of each rule finds in `line`.
pub open spec fn searched(line: Seq<char>) -> Seq<Groups> {
    Seq::new(RULE_COUNT as nat, |i: int| regex_captures(rule_at(i).0, line))
}

/// Whether the pattern of some rule is found in `line`.
pub open spec fn is_recognised(line: Seq<char>) -> bool {
    exists|i: int| 0 <= i < RULE_COUNT && regex_captures(rule_at(i).0, line) is Some
}

/// The record of `line`, with the pattern of each rule searched for in it.
pub open spec fn classified(line: Seq<char>, context: Seq<char>, version: Seq<char>)
    -> PatchChangeView {
    classify(line, context, version, searched(line))
}

/// Every line has a record: in the version given, and on the context or on
/// a property below it. Where no pattern was found at or after rule `from`,
/// it is the note of the whole line.
pub proof fn lemma_classify_total(
    line: Seq<char>,
    context: Seq<char>,
    version: Seq<char>,
    found: Seq<Groups>,
    from: int,
)
    ensures
        ({
            let record = classify_from(line, context, version, found, from);
            &&& record.version == version
            &&& record.property == context || exists|subject: Seq<char>|
                record.property == subject_property(context, subject)
            &&& context.len() > 0 ==> record.wf()
            &&& (forall|i: int| from <= i < found.len() && i < RULE_COUNT ==> found[i] is None)
                ==> record == note_record(line, context, version)
        }),
    decreases found.len() - from,
{
    let record = classify_from(line, context, version, found, from);
    if 0 <= from < found.len() && from < RULE_COUNT {
        if found[from] is Some {
            if record.property != context {
                let subject = match rule_at(from).1 {
                    Shape::Absolute => group(found[from], 1)->0,
                    Shape::Relative => group(found[from], 1)->0,
                    Shape::Grant => group(found[from], 2)->0,
                };
                assert(record.property == subject_property(context, subject));
            }
        } else {
            lemma_classify_total(line, context, version, found, from + 1);
        }
    }
}

/// A line in which the pattern of no rule is found is a note of the whole
/// line, on the context itself.
pub proof fn lemma_unrecognised_is_note(line: Seq<char>, context: Seq<char>, version: Seq<char>)
    requires
        !is_recognised(line),
    ensures
        classified(line, context, version) == note_record(line, context, version),
{
    lemma_classify_total(line, context, version, searched(line), 0);
}

/// A line as it is classified: without white space around it, and without
/// what follows the first ` (`.
pub fn normalize_line(raw: &str) -> (line: String)
    ensures
        line@ == normalized(raw@),
{
    let trimmed = trim_text(raw);
    text_before_first(trimmed.as_str(), ANNOTATION_START)
}

/// `context`, the separator and `subject`.
fn property_below(context: String, subject: &String) -> (property: String)
    ensures
        property@ == subject_property(context@, subject@),
{
    let mut property = context;
    property.append(SEPARATOR);
    property.append(subject.as_str());
    property
}

/// The amount of a relative change, as `signed_amount` defines it.
fn amount_of(verb: &String, amount: &String) -> (delta: Option<i32>)
    ensures
        signed_amount(verb@, amount@) == match delta {
            Some(d) => Some(d as int),
            None => None,
        },
{
    match parse_i32(amount.as_str()) {
        Some(n) => {
            if text_equal(verb.as_str(), DECREASED) {
                if n == i32::MIN {
                    None
                } else {
                    Some(-n)
                }
            } else {
                Some(n)
            }
        },
        None => None,
    }
}

/// The data of the record that the groups `found` make in the shape given,
/// and the subject it is about; nothing where they make none.
fn shaped_data(shape: Shape, found: &Option<Vec<Option<String>>>) -> (made: Option<
    (&String, ChangeData),
>)
    ensures
        forall|context: Seq<char>, version: Seq<char>|
            #[trigger] shaped_record(shape, found.deep_view(), context, version) == match made {
                Some((subject, data)) => Some(
                    PatchChangeView {
                        property: subject_property(context, subject@),
                        version,
                        data: data@,
                    },
                ),
                None => None,
            },
{
    let first = group_text(found, 1);
    let second = group_text(found, 2);
    let third = group_text(found, 3);
    match shape {
        Shape::Absolute => match (first, second, third) {
            (Some(subject), Some(old), Some(new)) => Some(
                (subject, ChangeData::AbsoluteChange(old.clone(), new.clone())),
            ),
            _ => None,
        },
        Shape::Relative => match (first, second, third) {
            (Some(subject), Some(verb), Some(amount)) => match amount_of(verb, amount) {
                Some(delta) => Some((subject, ChangeData::RelativeChange(delta))),
                None => None,
            },
            _ => None,
        },
        Shape::Grant => match (first, second) {
            (Some(value), Some(subject)) => Some(
                (subject, ChangeData::AbsoluteChange(NO_VALUE.to_owned(), value.clone())),
            ),
            _ => None,
        },
    }
}

/// The note of a whole line, on the context itself.
fn note_of(line: &str, tree_location: &String, version: &str) -> (record: PatchChange)
    requires
        tree_location@.len() > 0,
    ensures
        record@ == note_record(line@, tree_location@, version@),
{
    let note = ChangeData::OtherChange(line.to_owned());
    PatchChange::new(tree_location, &version.to_owned(), note)
}

/// The record of a line in which the pattern of a rule of the shape given
/// took the groups `found`: the record they make, or the note of the line
/// where they make none.
fn record_of(
    shape: Shape,
    found: &Option<Vec<Option<String>>>,
    line: &str,
    tree_location: String,
    version: &str,
) -> (record: PatchChange)
    requires
        tree_location@.len() > 0,
    ensures
        record@ == or_note(
            shaped_record(shape, found.deep_view(), tree_location@, version@),
            note_record(line@, tree_location@, version@),
        ),
{
    match shaped_data(shape, found) {
        Some((subject, data)) => {
            let property = property_below(tree_location, subject);
            PatchChange::new(&property, &version.to_owned(), data)
        },
        None => note_of(line, &tree_location, version),
    }
}

impl PatchChange {
    /// The record of a changelog line found at `tree_location` in the notes
    /// of `version`.
    ///
    /// The line is classified as `normalized` leaves it. Every line has a
    /// record; one in which no pattern is found is a note of the whole line
    /// on `tree_location` itself.
    pub fn parse_text(change_line: &str, tree_location: String, version: &str) -> (record:
        PatchChange)
        requires
            tree_location@.len() > 0,
        ensures
            record@ == classified(normalized(change_line@), tree_location@, version@),
            record@.wf(),
            record@.version == version@,
            !is_recognised(normalized(change_line@)) ==> record@ == note_record(
                normalized(change_line@),
                tree_location@,
                version@,
            ),
    {
        let line = normalize_line(change_line);
        PatchChange::classify_line(line.as_str(), tree_location, version)
    }

    /// The record of a line that is classified as it stands.
    pub fn classify_line(line: &str, tree_location: String, version: &str) -> (record: PatchChange)
        requires
            tree_location@.len() > 0,
        ensures
            record@ == classified(line@, tree_location@, version@),
            record@.wf(),
            record@.version == version@,
            !is_recognised(line@) ==> record@ == note_record(line@, tree_location@, version@),
    {
        proof {
            lemma_classify_total(line@, tree_location@, version@, searched(line@), 0);
        }
        let mut i: usize = 0;
        while i < RULE_COUNT
            invariant
                i <= RULE_COUNT,
                tree_location@.len() > 0,
                classified(line@, tree_location@, version@) == classify_from(
                    line@,
                    tree_location@,
                    version@,
                    searched(line@),
                    i as int,
                ),
                forall|j: int| 0 <= j < i ==> regex_captures(rule_at(j).0, line@) is None,
            decreases RULE_COUNT - i,
        {
            let (pattern, shape) = rule(i);
            let found = captures(pattern, line);
            if found.is_some() {
                return record_of(shape, &found, line, tree_location, version);
            }
            i += 1;
        }
        note_of(line, &tree_location, version)
    }

    /// The record of `line`, where `found[i]` is what the search for the
    /// pattern of rule `i` found in it, as `classify` defines it.
    pub fn from_captures(
        line: &str,
        tree_location: String,
        version: &str,
        found: &Vec<Option<Vec<Option<String>>>>,
    ) -> (record: PatchChange)
        requires
            tree_location@.len() > 0,
        ensures
            record@ == classify(line@, tree_location@, version@, found.deep_view()),
            record@.wf(),
            record@.version == version@,
    {
        proof {
            lemma_classify_total(line@, tree_location@, version@, found.deep_view(), 0);
        }
        let mut i: usize = 0;
        while i < RULE_COUNT && i < found.len()
            invariant
                i <= RULE_COUNT,
                i <= found.len(),
                tree_location@.len() > 0,
                classify(line@, tree_location@, version@, found.deep_view()) == classify_from(
                    line@,
                    tree_location@,
                    version@,
                    found.deep_view(),
                    i as int,
                ),
            decreases RULE_COUNT - i,
        {
            assert(found.deep_view()[i as int] == found[i as int].deep_view());
            if found[i].is_some() {
                let (_, shape) = rule(i);
                return record_of(shape, &found[i], line, tree_location, version);
            }
            i += 1;
        }
        note_of(line, &tree_location, version)
    }
}

} // verus!
