//! Direction inference: one word for how a value moved, where the value may
//! give several levels between slashes.

use crate::decimal::{decimal_less, lemma_token_lt_asymmetric, token_lt};
use crate::pattern::{captures, group, group_text, regex_captures, NUMBER_STR};
use crate::text::{split, split_text};
use vstd::prelude::*;
use vstd::string::*;

verus! {

/// What stands between the levels of a value.
pub const LEVEL_SEPARATOR: &'static str = "/";

/// The word for a value of which some level went up and none went down.
pub const INCREASED: &'static str = "increased";

/// The word for a value of which some level went down and none went up.
pub const DECREASED: &'static str = "decreased";

/// The word for a value of which some level went up and some went down.
pub const RESCALED: &'static str = "rescaled";

/// The word for a value of which no level moved.
pub const CHANGED: &'static str = "changed";

/// The levels of a value: for each, the token that writes its number, or
/// nothing where none was found in it.
pub type Levels = Seq<Option<Seq<char>>>;

/// The token of level `i`. A value that gives fewer levels keeps its last
/// level for those it leaves out.
pub open spec fn level_at(levels: Levels, i: int) -> Option<Seq<char>> {
    if 0 <= i < levels.len() {
        levels[i]
    } else if levels.len() > 0 {
        levels.last()
    } else {
        None
    }
}

/// How many levels the two values give between them.
pub open spec fn level_count(old: Levels, new: Levels) -> int {
    if old.len() > new.len() {
        old.len() as int
    } else {
        new.len() as int
    }
}

/// Whether level `i` holds a number on both sides, and a larger one in `new`.
pub open spec fn rises_at(old: Levels, new: Levels, i: int) -> bool {
    match (level_at(old, i), level_at(new, i)) {
        (Some(before), Some(after)) => token_lt(before, after),
        _ => false,
    }
}

/// Whether level `i` holds a number on both sides, and a smaller one in `new`.
pub open spec fn falls_at(old: Levels, new: Levels, i: int) -> bool {
    match (level_at(old, i), level_at(new, i)) {
        (Some(before), Some(after)) => token_lt(after, before),
        _ => false,
    }
}

/// Whether some level rises.
pub open spec fn rises(old: Levels, new: Levels) -> bool {
    exists|i: int| 0 <= i < level_count(old, new) && rises_at(old, new, i)
}

/// Whether some level falls.
pub open spec fn falls(old: Levels, new: Levels) -> bool {
    exists|i: int| 0 <= i < level_count(old, new) && falls_at(old, new, i)
}

/// The word for the move from `old` to `new`.
pub open spec fn direction(old: Levels, new: Levels) -> Seq<char> {
    if rises(old, new) && falls(old, new) {
        RESCALED@
    } else if rises(old, new) {
        INCREASED@
    } else if falls(old, new) {
        DECREASED@
    } else {
        CHANGED@
    }
}

/// The word for the move the other way.
pub open spec fn reversed(word: Seq<char>) -> Seq<char> {
    if word == INCREASED@ {
        DECREASED@
    } else if word == DECREASED@ {
        INCREASED@
    } else {
        word
    }
}

/// No level both rises and falls.
pub proof fn lemma_level_moves_one_way(old: Levels, new: Levels, i: int)
    ensures
        !(rises_at(old, new, i) && falls_at(old, new, i)),
{
    if rises_at(old, new, i) {
        lemma_token_lt_asymmetric(level_at(old, i)->0, level_at(new, i)->0);
    }
}

/// What rises from `old` to `new` falls from `new` to `old`, so the word for
/// the way back is the reversed word.
pub proof fn lemma_direction_reversed(old: Levels, new: Levels)
    ensures
        rises(new, old) == falls(old, new),
        falls(new, old) == rises(old, new),
        direction(new, old) == reversed(direction(old, new)),
{
    reveal_strlit("increased");
    reveal_strlit("decreased");
    reveal_strlit("rescaled");
    reveal_strlit("changed");
    assert(rises(new, old) == falls(old, new)) by {
        if rises(new, old) {
            let i = choose|i: int| 0 <= i < level_count(new, old) && rises_at(new, old, i);
            assert(0 <= i < level_count(old, new) && falls_at(old, new, i));
        }
        if falls(old, new) {
            let i = choose|i: int| 0 <= i < level_count(old, new) && falls_at(old, new, i);
            assert(0 <= i < level_count(new, old) && rises_at(new, old, i));
        }
    }
    assert(falls(new, old) == rises(old, new)) by {
        if falls(new, old) {
            let i = choose|i: int| 0 <= i < level_count(new, old) && falls_at(new, old, i);
            assert(0 <= i < level_count(old, new) && rises_at(old, new, i));
        }
        if rises(old, new) {
            let i = choose|i: int| 0 <= i < level_count(old, new) && rises_at(old, new, i);
            assert(0 <= i < level_count(new, old) && falls_at(new, old, i));
        }
    }
    assert(INCREASED@ != DECREASED@) by {
        assert(INCREASED@[0] != DECREASED@[0]);
    }
    assert(RESCALED@ != INCREASED@ && RESCALED@ != DECREASED@) by {
        assert(RESCALED@[0] != INCREASED@[0] && RESCALED@[0] != DECREASED@[0]);
    }
    assert(CHANGED@ != INCREASED@ && CHANGED@ != DECREASED@) by {
        assert(CHANGED@[0] != INCREASED@[0] && CHANGED@[0] != DECREASED@[0]);
    }
}

/// The levels of a value: it is cut at each slash, and in each piece the
/// number pattern is searched for. What the whole match took is the token.
pub open spec fn level_tokens(value: Seq<char>) -> Levels {
    let pieces = split(value, LEVEL_SEPARATOR@);
    Seq::new(pieces.len(), |i: int| group(regex_captures(NUMBER_STR@, pieces[i]), 0))
}

/// The word for the move from the value `old` to the value `new`.
pub open spec fn change_direction(old: Seq<char>, new: Seq<char>) -> Seq<char> {
    direction(level_tokens(old), level_tokens(new))
}

/// The token of level `i`, as `level_at` defines it.
fn level(levels: &Vec<Option<String>>, i: usize) -> (token: Option<&String>)
    ensures
        level_at(levels.deep_view(), i as int) == match token {
            Some(t) => Some(t@),
            None => None,
        },
{
    if levels.len() == 0 {
        return None;
    }
    let at = if i < levels.len() {
        i
    } else {
        levels.len() - 1
    };
    match &levels[at] {
        Some(token) => Some(token),
        None => None,
    }
}

/// The word for the move from the levels `old` to the levels `new`.
pub fn direction_of_levels(old: &Vec<Option<String>>, new: &Vec<Option<String>>) -> (word: String)
    ensures
        word@ == direction(old.deep_view(), new.deep_view()),
{
    let count = if old.len() > new.len() {
        old.len()
    } else {
        new.len()
    };
    let mut up = false;
    let mut down = false;
    let mut i: usize = 0;
    while i < count
        invariant
            i <= count,
            count == level_count(old.deep_view(), new.deep_view()),
            up <==> exists|j: int| 0 <= j < i && rises_at(old.deep_view(), new.deep_view(), j),
            down <==> exists|j: int| 0 <= j < i && falls_at(old.deep_view(), new.deep_view(), j),
        decreases count - i,
    {
        match (level(old, i), level(new, i)) {
            (Some(before), Some(after)) => {
                if decimal_less(after.as_str(), before.as_str()) {
                    down = true;
                }
                if decimal_less(before.as_str(), after.as_str()) {
                    up = true;
                }
            },
            _ => {},
        }
        proof {
            let at = i as int;
            assert(up <==> exists|j: int|
                0 <= j < at + 1 && rises_at(old.deep_view(), new.deep_view(), j)) by {
                if rises_at(old.deep_view(), new.deep_view(), at) {
                    assert(0 <= at < at + 1 && rises_at(old.deep_view(), new.deep_view(), at));
                }
            }
            assert(down <==> exists|j: int|
                0 <= j < at + 1 && falls_at(old.deep_view(), new.deep_view(), j)) by {
                if falls_at(old.deep_view(), new.deep_view(), at) {
                    assert(0 <= at < at + 1 && falls_at(old.deep_view(), new.deep_view(), at));
                }
            }
        }
        i += 1;
    }
    if up && down {
        RESCALED.to_owned()
    } else if up {
        INCREASED.to_owned()
    } else if down {
        DECREASED.to_owned()
    } else {
        CHANGED.to_owned()
    }
}

/// The levels of a value, as `level_tokens` defines them.
fn tokens_of(value: &str) -> (tokens: Vec<Option<String>>)
    ensures
        tokens.deep_view() == level_tokens(value@),
{
    let pieces = split_text(value, LEVEL_SEPARATOR);
    let mut tokens: Vec<Option<String>> = Vec::new();
    let mut i: usize = 0;
    while i < pieces.len()
        invariant
            i <= pieces.len(),
            pieces.deep_view() == split(value@, LEVEL_SEPARATOR@),
            tokens.len() == i,
            forall|j: int|
                0 <= j < i ==> (#[trigger] tokens[j]).deep_view() == level_tokens(value@)[j],
        decreases pieces.len() - i,
    {
        let found = captures(NUMBER_STR, pieces[i].as_str());
        let token = match group_text(&found, 0) {
            Some(text) => Some(text.clone()),
            None => None,
        };
        tokens.push(token);
        i += 1;
    }
    tokens
}

/// The word for the move from the value `old` to the value `new`:
/// `rescaled` where some level went up and some went down, `increased` or
/// `decreased` where levels went one way only, `changed` where none moved.
pub fn absolute_change_direction(old: &String, new: &String) -> (word: String)
    ensures
        word@ == change_direction(old@, new@),
{
    let before = tokens_of(old.as_str());
    let after = tokens_of(new.as_str());
    direction_of_levels(&before, &after)
}

} // verus!
