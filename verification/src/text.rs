//! Text as a sequence of characters: ordering, searching and cutting.
//!
//! Every contract in this crate speaks of strings through their view, a
//! `Seq<char>`. This module holds the vocabulary those contracts share.

use vstd::prelude::*;
use vstd::string::*;

verus! {

/// Strict lexicographic order on character sequences, characters compared by
/// code point. A proper prefix comes before the longer text.
pub open spec fn text_lt(a: Seq<char>, b: Seq<char>) -> bool
    decreases a.len(),
{
    if b.len() == 0 {
        false
    } else if a.len() == 0 {
        true
    } else if a[0] == b[0] {
        text_lt(a.drop_first(), b.drop_first())
    } else {
        a[0] < b[0]
    }
}

/// Lexicographic order, equal texts included.
pub open spec fn text_le(a: Seq<char>, b: Seq<char>) -> bool {
    a == b || text_lt(a, b)
}

/// No text comes before itself.
pub proof fn lemma_text_lt_irreflexive(a: Seq<char>)
    ensures
        !text_lt(a, a),
    decreases a.len(),
{
    if a.len() > 0 {
        lemma_text_lt_irreflexive(a.drop_first());
    }
}

/// Of two texts, at most one comes before the other.
pub proof fn lemma_text_lt_asymmetric(a: Seq<char>, b: Seq<char>)
    requires
        text_lt(a, b),
    ensures
        !text_lt(b, a),
    decreases a.len(),
{
    if a.len() > 0 && b.len() > 0 && a[0] == b[0] {
        lemma_text_lt_asymmetric(a.drop_first(), b.drop_first());
    }
}

/// The order is transitive.
pub proof fn lemma_text_lt_transitive(a: Seq<char>, b: Seq<char>, c: Seq<char>)
    requires
        text_lt(a, b),
        text_lt(b, c),
    ensures
        text_lt(a, c),
    decreases a.len(),
{
    if a.len() > 0 && b.len() > 0 && c.len() > 0 && a[0] == b[0] && b[0] == c[0] {
        lemma_text_lt_transitive(a.drop_first(), b.drop_first(), c.drop_first());
    }
}

/// Two different texts are always ordered one way or the other.
pub proof fn lemma_text_lt_connected(a: Seq<char>, b: Seq<char>)
    ensures
        a == b || text_lt(a, b) || text_lt(b, a),
    decreases a.len(),
{
    if a.len() > 0 && b.len() > 0 && a[0] == b[0] {
        lemma_text_lt_connected(a.drop_first(), b.drop_first());
        if a.drop_first() == b.drop_first() {
            assert(a =~= seq![a[0]] + a.drop_first());
            assert(b =~= seq![b[0]] + b.drop_first());
        }
    }
}

/// The characters of a string, in order.
pub fn to_chars(s: &str) -> (out: Vec<char>)
    ensures
        out@ == s@,
{
    broadcast use vstd::string::group_string_axioms;

    let mut out: Vec<char> = Vec::new();
    let chars = s.chars();
    for c in it: chars
        invariant
            it.seq() == s@,
            out@ == s@.take(it.index()),
    {
        out.push(c);
    }
    out
}

/// Whether `a` comes strictly before `b` in lexicographic order.
pub fn chars_less(a: &Vec<char>, b: &Vec<char>) -> (r: bool)
    ensures
        r == text_lt(a@, b@),
{
    let mut i: usize = 0;
    assert(a@.skip(0) =~= a@ && b@.skip(0) =~= b@);
    while i < a.len() && i < b.len()
        invariant
            i <= a.len(),
            i <= b.len(),
            text_lt(a@, b@) == text_lt(a@.skip(i as int), b@.skip(i as int)),
        decreases a.len() - i,
    {
        if a[i] != b[i] {
            return a[i] < b[i];
        }
        proof {
            assert(a@.skip(i as int).drop_first() =~= a@.skip(i + 1));
            assert(b@.skip(i as int).drop_first() =~= b@.skip(i + 1));
        }
        i += 1;
    }
    i < b.len()
}

/// Whether `a` comes strictly before `b` in lexicographic order.
pub fn text_less(a: &str, b: &str) -> (r: bool)
    ensures
        r == text_lt(a@, b@),
{
    let x = to_chars(a);
    let y = to_chars(b);
    chars_less(&x, &y)
}

/// Whether `needle` stands in `hay` at index `i`.
pub open spec fn occurs_at(hay: Seq<char>, needle: Seq<char>, i: int) -> bool {
    &&& 0 <= i
    &&& i + needle.len() <= hay.len()
    &&& hay.subrange(i, i + needle.len()) == needle
}

/// Whether `needle` stands somewhere in `hay`.
pub open spec fn occurs_in(hay: Seq<char>, needle: Seq<char>) -> bool {
    exists|i: int| occurs_at(hay, needle, i)
}

/// Index of the first occurrence of `needle` in `hay` at or after `from`.
pub open spec fn find_from(hay: Seq<char>, needle: Seq<char>, from: int) -> Option<int>
    decreases hay.len() + 1 - from,
{
    if from < 0 || from + needle.len() > hay.len() {
        None
    } else if occurs_at(hay, needle, from) {
        Some(from)
    } else {
        find_from(hay, needle, from + 1)
    }
}

/// `find_from` gives the least index at or after `from` at which `needle`
/// stands, and nothing exactly when there is no such index.
pub proof fn lemma_find_from(hay: Seq<char>, needle: Seq<char>, from: int)
    requires
        0 <= from,
    ensures
        match find_from(hay, needle, from) {
            Some(i) => {
                &&& from <= i
                &&& occurs_at(hay, needle, i)
                &&& forall|j: int| from <= j < i ==> !occurs_at(hay, needle, j)
            },
            None => forall|j: int| from <= j ==> !occurs_at(hay, needle, j),
        },
    decreases hay.len() + 1 - from,
{
    if from + needle.len() <= hay.len() && !occurs_at(hay, needle, from) {
        lemma_find_from(hay, needle, from + 1);
    }
}

/// A text holds `needle` exactly when a search from its start finds it.
pub proof fn lemma_occurs_in_iff_found(hay: Seq<char>, needle: Seq<char>)
    ensures
        occurs_in(hay, needle) <==> find_from(hay, needle, 0) is Some,
{
    lemma_find_from(hay, needle, 0);
}

/// Searching the text left after dropping `k` characters is searching the
/// whole text from index `k`.
pub proof fn lemma_find_from_skip(hay: Seq<char>, needle: Seq<char>, k: int, from: int)
    requires
        0 <= k <= hay.len(),
        0 <= from,
    ensures
        find_from(hay.skip(k), needle, from) == match find_from(hay, needle, k + from) {
            Some(i) => Some(i - k),
            None => None,
        },
    decreases hay.len() + 1 - k - from,
{
    let rest = hay.skip(k);
    if from + needle.len() <= rest.len() {
        assert(rest.subrange(from, from + needle.len()) =~= hay.subrange(
            k + from,
            k + from + needle.len(),
        ));
        if !occurs_at(rest, needle, from) {
            lemma_find_from_skip(hay, needle, k, from + 1);
        }
    }
}

/// The pieces of `s` between the occurrences of `sep`, found from left to
/// right without overlap. A text without `sep`, or an empty `sep`, gives the
/// text itself as the only piece.
pub open spec fn split(s: Seq<char>, sep: Seq<char>) -> Seq<Seq<char>>
    decreases s.len(),
{
    match find_from(s, sep, 0) {
        Some(i) if sep.len() > 0 && 0 <= i && i + sep.len() <= s.len() => seq![s.subrange(0, i)]
            + split(s.skip(i + sep.len()), sep),
        _ => seq![s],
    }
}

/// Every piece of a text stands in the text, at the index returned.
pub proof fn lemma_split_piece_occurs(s: Seq<char>, sep: Seq<char>, i: int) -> (at: int)
    requires
        0 <= i < split(s, sep).len(),
    ensures
        occurs_at(s, split(s, sep)[i], at),
    decreases s.len(),
{
    let piece = split(s, sep)[i];
    let found = find_from(s, sep, 0);
    if found is Some && sep.len() > 0 && 0 <= found->0 && found->0 + sep.len() <= s.len() {
        let k = found->0;
        let rest = s.skip(k + sep.len());
        assert(split(s, sep) == seq![s.subrange(0, k)] + split(rest, sep));
        if i == 0 {
            assert(piece == s.subrange(0, k));
            assert(s.subrange(0, piece.len() as int) =~= piece);
            0
        } else {
            assert(piece == split(rest, sep)[i - 1]);
            let j = lemma_split_piece_occurs(rest, sep, i - 1);
            let at = k + sep.len() + j;
            assert(s.subrange(at, at + piece.len()) =~= rest.subrange(j, j + piece.len()));
            at
        }
    } else {
        assert(split(s, sep) == seq![s]);
        assert(s.subrange(0, s.len() as int) =~= s);
        0
    }
}

/// The text before the first occurrence of `sep`; the whole text where there
/// is none.
pub open spec fn before_first(s: Seq<char>, sep: Seq<char>) -> Seq<char> {
    match find_from(s, sep, 0) {
        Some(i) => s.subrange(0, i),
        None => s,
    }
}

/// The text before the first occurrence of `sep`; the whole text where there
/// is none.
pub fn text_before_first(s: &str, sep: &str) -> (head: String)
    ensures
        head@ == before_first(s@, sep@),
{
    let chars = to_chars(s);
    let pattern = to_chars(sep);
    proof {
        lemma_find_from(s@, sep@, 0);
    }
    match chars_find(&chars, &pattern, 0) {
        Some(i) => s.substring_char(0, i).to_owned(),
        None => s.to_owned(),
    }
}

/// What stands before the first occurrence of `sep` holds no `sep`.
pub proof fn lemma_before_first_has_none(s: Seq<char>, sep: Seq<char>)
    requires
        sep.len() > 0,
    ensures
        !occurs_in(before_first(s, sep), sep),
{
    lemma_find_from(s, sep, 0);
    let head = before_first(s, sep);
    assert forall|j: int| !occurs_at(head, sep, j) by {
        if occurs_at(head, sep, j) {
            assert(head.subrange(j, j + sep.len()) =~= s.subrange(j, j + sep.len()));
            assert(occurs_at(s, sep, j));
        }
    }
}

/// The pieces with `sep` between them.
pub open spec fn join(pieces: Seq<Seq<char>>, sep: Seq<char>) -> Seq<char>
    decreases pieces.len(),
{
    if pieces.len() == 0 {
        Seq::empty()
    } else if pieces.len() == 1 {
        pieces[0]
    } else {
        pieces[0] + sep + join(pieces.drop_first(), sep)
    }
}

/// A text is cut into at least one piece, no piece holds the separator, and
/// the pieces with the separator between them give the text back.
pub proof fn lemma_split_joins_back(s: Seq<char>, sep: Seq<char>)
    requires
        sep.len() > 0,
    ensures
        split(s, sep).len() >= 1,
        join(split(s, sep), sep) == s,
        forall|i: int| 0 <= i < split(s, sep).len() - 1 ==> !occurs_in(
            #[trigger] split(s, sep)[i],
            sep,
        ),
    decreases s.len(),
{
    lemma_find_from(s, sep, 0);
    lemma_before_first_has_none(s, sep);
    match find_from(s, sep, 0) {
        Some(k) => {
            let head = s.subrange(0, k);
            let rest = s.skip(k + sep.len());
            let pieces = split(s, sep);
            lemma_split_joins_back(rest, sep);
            assert(pieces.drop_first() =~= split(rest, sep));
            assert(s.subrange(k, k + sep.len()) == sep);
            assert(s =~= head + sep + rest);
            assert forall|i: int| 0 <= i < pieces.len() - 1 implies !occurs_in(
                #[trigger] pieces[i],
                sep,
            ) by {
                if i > 0 {
                    assert(pieces[i] == split(rest, sep)[i - 1]);
                }
            }
        },
        None => {},
    }
}

/// Whether `needle` stands in `hay` at index `i`.
pub fn chars_match_at(hay: &Vec<char>, needle: &Vec<char>, i: usize) -> (r: bool)
    ensures
        r == occurs_at(hay@, needle@, i as int),
{
    if needle.len() > hay.len() || i > hay.len() - needle.len() {
        return false;
    }
    let mut k: usize = 0;
    while k < needle.len()
        invariant
            k <= needle.len(),
            i + needle.len() <= hay.len(),
            forall|j: int| 0 <= j < k ==> hay@[i + j] == needle@[j],
        decreases needle.len() - k,
    {
        if hay[i + k] != needle[k] {
            return false;
        }
        k += 1;
    }
    assert(hay@.subrange(i as int, i + needle.len()) =~= needle@);
    true
}

/// Index of the first occurrence of `needle` in `hay` at or after `from`.
pub fn chars_find(hay: &Vec<char>, needle: &Vec<char>, from: usize) -> (r: Option<usize>)
    ensures
        find_from(hay@, needle@, from as int) == match r {
            Some(i) => Some(i as int),
            None => None,
        },
{
    if needle.len() > hay.len() {
        return None;
    }
    let last: usize = hay.len() - needle.len();
    let mut i: usize = from;
    while i <= last
        invariant
            last + needle.len() == hay.len(),
            from <= i,
            find_from(hay@, needle@, from as int) == find_from(hay@, needle@, i as int),
        decreases last + 1 - i,
    {
        if chars_match_at(hay, needle, i) {
            return Some(i);
        }
        if i == last {
            assert(find_from(hay@, needle@, i + 1) is None);
            return None;
        }
        i += 1;
    }
    None
}

/// Whether two strings hold the same text.
pub fn text_equal(a: &str, b: &str) -> (same: bool)
    ensures
        same == (a@ == b@),
{
    let x = to_chars(a);
    let y = to_chars(b);
    if x.len() != y.len() {
        return false;
    }
    assert(x@.subrange(0, x.len() as int) =~= x@);
    chars_match_at(&x, &y, 0)
}

/// Whether `needle` stands somewhere in `hay`.
pub fn text_contains(hay: &str, needle: &str) -> (r: bool)
    ensures
        r == occurs_in(hay@, needle@),
{
    let h = to_chars(hay);
    let n = to_chars(needle);
    proof {
        lemma_occurs_in_iff_found(hay@, needle@);
    }
    chars_find(&h, &n, 0).is_some()
}

/// The pieces of `s` between the occurrences of `sep`.
pub fn split_text(s: &str, sep: &str) -> (parts: Vec<String>)
    ensures
        parts.deep_view() == split(s@, sep@),
{
    let chars = to_chars(s);
    let pattern = to_chars(sep);
    let mut parts: Vec<String> = Vec::new();
    if pattern.len() == 0 {
        parts.push(s.to_owned());
        return parts;
    }
    let mut start: usize = 0;
    assert(s@.skip(0) =~= s@);
    loop
        invariant
            chars@ == s@,
            pattern@ == sep@,
            pattern.len() > 0,
            start <= chars.len(),
            split(s@, sep@) == parts.deep_view() + split(s@.skip(start as int), sep@),
        decreases chars.len() - start,
    {
        let ghost rest = s@.skip(start as int);
        proof {
            lemma_find_from_skip(s@, sep@, start as int, 0);
            lemma_find_from(s@, sep@, start as int);
        }
        match chars_find(&chars, &pattern, start) {
            Some(i) => {
                parts.push(s.substring_char(start, i).to_owned());
                proof {
                    assert(rest.subrange(0, i - start) =~= s@.subrange(start as int, i as int));
                    assert(rest.skip(i - start + sep@.len()) =~= s@.skip(i + sep@.len()));
                }
                start = i + pattern.len();
            },
            None => {
                parts.push(s.substring_char(start, chars.len()).to_owned());
                return parts;
            },
        }
    }
}

/// Whether a character is white space, as `char::is_whitespace` tells it.
pub uninterp spec fn white_space(c: char) -> bool;

/// `char::is_whitespace`: the answer is a property of the character alone,
/// and `white_space` is its name.
#[verifier::external_body]
fn is_white_space(c: char) -> (b: bool)
    ensures
        b == white_space(c),
{
    c.is_whitespace()
}

/// The text without its leading white space.
pub open spec fn trim_start(s: Seq<char>) -> Seq<char>
    decreases s.len(),
{
    if s.len() > 0 && white_space(s[0]) {
        trim_start(s.drop_first())
    } else {
        s
    }
}

/// The text without its trailing white space.
pub open spec fn trim_end(s: Seq<char>) -> Seq<char>
    decreases s.len(),
{
    if s.len() > 0 && white_space(s.last()) {
        trim_end(s.drop_last())
    } else {
        s
    }
}

/// The text without leading and trailing white space.
pub open spec fn trim(s: Seq<char>) -> Seq<char> {
    trim_end(trim_start(s))
}

/// What is cut off at the front of a text is white space, and what is left
/// does not begin with white space.
pub proof fn lemma_trim_start(s: Seq<char>)
    ensures
        trim_start(s).len() <= s.len(),
        trim_start(s) == s.skip(s.len() - trim_start(s).len()),
        forall|i: int| 0 <= i < s.len() - trim_start(s).len() ==> white_space(#[trigger] s[i]),
        trim_start(s).len() > 0 ==> !white_space(trim_start(s)[0]),
    decreases s.len(),
{
    if s.len() > 0 && white_space(s[0]) {
        let rest = s.drop_first();
        lemma_trim_start(rest);
        let cut = s.len() - trim_start(s).len();
        assert(rest.skip(cut - 1) =~= s.skip(cut));
        assert forall|i: int| 0 <= i < cut implies white_space(#[trigger] s[i]) by {
            if i > 0 {
                assert(s[i] == rest[i - 1]);
            }
        }
    } else {
        assert(s.skip(0) =~= s);
    }
}

/// What is cut off at the back of a text is white space, and what is left
/// does not end in white space.
pub proof fn lemma_trim_end(s: Seq<char>)
    ensures
        trim_end(s).len() <= s.len(),
        trim_end(s) == s.take(trim_end(s).len() as int),
        forall|i: int| trim_end(s).len() <= i < s.len() ==> white_space(#[trigger] s[i]),
        trim_end(s).len() > 0 ==> !white_space(trim_end(s).last()),
    decreases s.len(),
{
    if s.len() > 0 && white_space(s.last()) {
        let rest = s.drop_last();
        lemma_trim_end(rest);
        assert(rest.take(trim_end(s).len() as int) =~= s.take(trim_end(s).len() as int));
        assert forall|i: int| trim_end(s).len() <= i < s.len() implies white_space(
            #[trigger] s[i],
        ) by {
            if i < s.len() - 1 {
                assert(s[i] == rest[i]);
            }
        }
    } else {
        assert(s.take(s.len() as int) =~= s);
    }
}

/// A trimmed text neither begins nor ends with white space.
pub proof fn lemma_trim_has_no_white_space_around(s: Seq<char>)
    ensures
        trim(s).len() > 0 ==> !white_space(trim(s)[0]) && !white_space(trim(s).last()),
{
    let front = trim_start(s);
    lemma_trim_start(s);
    lemma_trim_end(front);
    if trim(s).len() > 0 {
        assert(trim(s)[0] == front[0]);
    }
}

/// The text without leading and trailing white space.
pub fn trim_text(s: &str) -> (r: String)
    ensures
        r@ == trim(s@),
{
    let chars = to_chars(s);
    let mut lo: usize = 0;
    assert(s@.skip(0) =~= s@);
    while lo < chars.len() && is_white_space(chars[lo])
        invariant
            chars@ == s@,
            lo <= chars.len(),
            trim_start(s@) == trim_start(s@.skip(lo as int)),
        decreases chars.len() - lo,
    {
        assert(s@.skip(lo as int).drop_first() =~= s@.skip(lo + 1));
        lo += 1;
    }
    let mut hi: usize = chars.len();
    while hi > lo && is_white_space(chars[hi - 1])
        invariant
            chars@ == s@,
            lo <= hi <= chars.len(),
            trim(s@) == trim_end(s@.subrange(lo as int, hi as int)),
        decreases hi,
    {
        assert(s@.subrange(lo as int, hi as int).drop_last() =~= s@.subrange(
            lo as int,
            hi - 1,
        ));
        hi -= 1;
    }
    s.substring_char(lo, hi).to_owned()
}

} // verus!
