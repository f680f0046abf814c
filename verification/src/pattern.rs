//! The patterns by which changelog lines are recognised, and the search for
//! a pattern in a text.

use regex::Regex;
use vstd::prelude::*;

verus! {

/// `<subject> increased|decreased from <old> to <new>`
pub const ABS_NUM_STR: &'static str = r"(.*) (?:increased|decreased) from (\S*) to (\S*)";

/// `<subject> increased|decreased by <amount>`
pub const REL_NUM_STR: &'static str = r"(.*) (increased|decreased) by (\S*$)";

/// `<subject, ending in Talent> <old> replaced with <new>`
pub const ABS_TXT_STR: &'static str = r"(.*Talent) (.*) replaced with (.*)";

/// `... now has a <value> <subject>`
pub const NEW_NUM_STR: &'static str = r".*ow has a (\S*) ([^,]*)";

/// The first run of digits and dots in a text.
pub const NUMBER_STR: &'static str = r"([0-9\.]+)";

/// What a search for a pattern gives: nothing where the pattern is not found;
/// else, for each capture group of the pattern, the text it took, or nothing
/// for a group that took no part in the match. Group 0 is the whole match.
pub type Groups = Option<Seq<Option<Seq<char>>>>;

/// What `regex::Regex::captures` finds for the regular expression `pattern`
/// in `haystack`: the capture groups of the first match. Nothing where there
/// is no match, and nothing where `pattern` is no regular expression.
pub uninterp spec fn regex_captures(pattern: Seq<char>, haystack: Seq<char>) -> Option<
    Seq<Option<Seq<char>>>,
>;

/// Text of capture group `i`, where the pattern was found and the group took
/// part in the match.
pub open spec fn group(found: Groups, i: int) -> Option<Seq<char>> {
    match found {
        Some(groups) => if 0 <= i < groups.len() {
            groups[i]
        } else {
            None
        },
        None => None,
    }
}

/// Compiles `pattern` with `regex::Regex::new` and searches `haystack` with
/// `regex::Regex::captures`. The contract claims only that the outcome is a
/// function of the two texts, and calls it `regex_captures`: what the
/// expression means is the regex crate's to say. A pattern that does not
/// compile counts as no match.
#[verifier::external_body]
pub(crate) fn captures(pattern: &str, haystack: &str) -> (found: Option<Vec<Option<String>>>)
    ensures
        found.deep_view() == regex_captures(pattern@, haystack@),
{
    let expression = match Regex::new(pattern) {
        Ok(expression) => expression,
        Err(_) => return None,
    };
    let found = expression.captures(haystack)?;
    Some(found.iter().map(|group| group.map(|m| m.as_str().to_string())).collect())
}

/// Text of capture group `i`, where the pattern was found and the group took
/// part in the match.
pub fn group_text(found: &Option<Vec<Option<String>>>, i: usize) -> (text: Option<&String>)
    ensures
        group(found.deep_view(), i as int) == match text {
            Some(s) => Some(s@),
            None => None,
        },
{
    match found {
        Some(groups) => {
            if i < groups.len() {
                match &groups[i] {
                    Some(s) => Some(s),
                    None => None,
                }
            } else {
                None
            }
        },
        None => None,
    }
}

} // verus!
