//! Decimal numbers as they stand in a value: digits, with a dot among them
//! or not. They are compared exactly, digit by digit, however long they are.

use crate::number::{all_digits, digit_value, digits_value, is_digit};
use crate::text::{
    before_first, chars_find, chars_less, lemma_find_from, lemma_text_lt_connected, text_lt,
    to_chars,
};
use vstd::prelude::*;

verus! {

/// The dot between the whole part and the fraction.
pub const DOT: &'static str = ".";

/// The number `mantissa / 10^scale`.
pub struct Decimal {
    pub mantissa: nat,
    pub scale: nat,
}

/// Ten to the power `k`.
pub open spec fn pow10(k: nat) -> nat
    decreases k,
{
    if k == 0 {
        1
    } else {
        10 * pow10((k - 1) as nat)
    }
}

/// Whether `a` is the smaller number.
pub open spec fn decimal_lt(a: Decimal, b: Decimal) -> bool {
    a.mantissa * pow10(b.scale) < b.mantissa * pow10(a.scale)
}

/// The digits of a token before its first dot.
pub open spec fn whole_part(token: Seq<char>) -> Seq<char> {
    before_first(token, DOT@)
}

/// What follows the first dot of a token; nothing where it has no dot.
pub open spec fn fraction_part(token: Seq<char>) -> Seq<char> {
    if whole_part(token).len() < token.len() {
        token.skip(whole_part(token).len() as int + 1)
    } else {
        Seq::empty()
    }
}

/// The number that a token writes: digits, a dot, digits, where the dot and
/// either run of digits may be left out, but not all digits. Anything else
/// writes no number.
pub open spec fn decimal_of(token: Seq<char>) -> Option<Decimal> {
    let whole = whole_part(token);
    let fraction = fraction_part(token);
    if all_digits(whole) && all_digits(fraction) && whole.len() + fraction.len() > 0 {
        Some(Decimal { mantissa: digits_value(whole + fraction), scale: fraction.len() })
    } else {
        None
    }
}

/// Whether both tokens write a number and that of `a` is the smaller.
pub open spec fn token_lt(a: Seq<char>, b: Seq<char>) -> bool {
    match (decimal_of(a), decimal_of(b)) {
        (Some(x), Some(y)) => decimal_lt(x, y),
        _ => false,
    }
}

/// Of two numbers, at most one is the smaller.
pub proof fn lemma_decimal_lt_asymmetric(a: Decimal, b: Decimal)
    requires
        decimal_lt(a, b),
    ensures
        !decimal_lt(b, a),
{
}

/// Of two tokens, at most one writes the smaller number.
pub proof fn lemma_token_lt_asymmetric(a: Seq<char>, b: Seq<char>)
    requires
        token_lt(a, b),
    ensures
        !token_lt(b, a),
{
}

/// `k` zeros.
pub open spec fn zeros(k: nat) -> Seq<char> {
    Seq::new(k, |i: int| '0')
}

/// Ten to a sum is the product of the powers.
pub proof fn lemma_pow10_adds(a: nat, b: nat)
    ensures
        pow10(a + b) == pow10(a) * pow10(b),
        pow10(a) > 0,
    decreases a,
{
    if a > 0 {
        lemma_pow10_adds((a - 1) as nat, b);
        assert(10 * (pow10((a - 1) as nat) * pow10(b)) == (10 * pow10((a - 1) as nat)) * pow10(b))
            by (nonlinear_arith);
    } else {
        assert(pow10(a) * pow10(b) == pow10(b)) by (nonlinear_arith)
            requires
                pow10(a) == 1,
        ;
    }
}

/// Zeros in front of digits leave their value as it is.
pub proof fn lemma_leading_zeros(k: nat, digits: Seq<char>)
    ensures
        digits_value(zeros(k) + digits) == digits_value(digits),
    decreases digits.len(), k,
{
    let padded = zeros(k) + digits;
    if digits.len() > 0 {
        assert(padded.drop_last() =~= zeros(k) + digits.drop_last());
        lemma_leading_zeros(k, digits.drop_last());
    } else if k > 0 {
        assert(padded.drop_last() =~= zeros((k - 1) as nat) + digits);
        lemma_leading_zeros((k - 1) as nat, digits);
    }
}

/// Each zero after digits makes their value ten times as large.
pub proof fn lemma_trailing_zeros(digits: Seq<char>, k: nat)
    ensures
        digits_value(digits + zeros(k)) == digits_value(digits) * pow10(k),
    decreases k,
{
    let padded = digits + zeros(k);
    if k > 0 {
        assert(padded.drop_last() =~= digits + zeros((k - 1) as nat));
        lemma_trailing_zeros(digits, (k - 1) as nat);
        assert(digits_value(digits) * pow10((k - 1) as nat) * 10 == digits_value(digits) * (10
            * pow10((k - 1) as nat))) by (nonlinear_arith);
    } else {
        assert(digits_value(digits) * pow10(k) == digits_value(digits)) by (nonlinear_arith)
            requires
                pow10(k) == 1,
        ;
    }
}

/// The value of digits, taken from the front: the first digit weighs ten to
/// the number of digits behind it. So many digits write a number below ten
/// to their count.
pub proof fn lemma_digits_value_front(digits: Seq<char>)
    requires
        all_digits(digits),
    ensures
        digits_value(digits) < pow10(digits.len()),
        digits.len() > 0 ==> digits_value(digits) == digit_value(digits[0]) * pow10(
            (digits.len() - 1) as nat,
        ) + digits_value(digits.drop_first()),
    decreases digits.len(),
{
    if digits.len() > 0 {
        let front = digits.drop_last();
        lemma_digits_value_front(front);
        if front.len() > 0 {
            assert(front.drop_first() =~= digits.drop_first().drop_last());
            let weight = pow10((front.len() - 1) as nat);
            let first = digit_value(digits[0]);
            let middle = digits_value(front.drop_first());
            assert((first * weight + middle) * 10 == first * (10 * weight) + middle * 10)
                by (nonlinear_arith);
        } else {
            assert(digit_value(digits[0]) * pow10(0) == digit_value(digits[0])) by (nonlinear_arith)
                requires
                    pow10(0) == 1,
            ;
        }
    }
}

/// Of two runs of digits of one length, the one that comes first in
/// dictionary order writes the smaller number.
pub proof fn lemma_same_length_order(a: Seq<char>, b: Seq<char>)
    requires
        a.len() == b.len(),
        all_digits(a),
        all_digits(b),
    ensures
        text_lt(a, b) <==> digits_value(a) < digits_value(b),
{
    if text_lt(a, b) {
        lemma_same_length_less(a, b);
    } else {
        lemma_text_lt_connected(a, b);
        if text_lt(b, a) {
            lemma_same_length_less(b, a);
        }
    }
}

/// One way of `lemma_same_length_order`: the run that comes first writes the
/// smaller number.
proof fn lemma_same_length_less(a: Seq<char>, b: Seq<char>)
    requires
        a.len() == b.len(),
        all_digits(a),
        all_digits(b),
        text_lt(a, b),
    ensures
        digits_value(a) < digits_value(b),
    decreases a.len(),
{
    lemma_digits_value_front(a);
    lemma_digits_value_front(b);
    let rest_a = a.drop_first();
    let rest_b = b.drop_first();
    if a[0] == b[0] {
        lemma_same_length_less(rest_a, rest_b);
    } else {
        lemma_digits_value_front(rest_a);
        let weight = pow10((a.len() - 1) as nat);
        let x = digit_value(a[0]);
        let y = digit_value(b[0]);
        assert(x * weight + weight <= y * weight) by (nonlinear_arith)
            requires
                x + 1 <= y,
                weight >= 0,
        ;
    }
}

/// Two numbers compare as their mantissas do once both are brought to the
/// larger of the two scales.
pub proof fn lemma_compare_at_common_scale(a: Decimal, b: Decimal, scale: nat)
    requires
        a.scale <= scale,
        b.scale <= scale,
    ensures
        decimal_lt(a, b) <==> a.mantissa * pow10((scale - a.scale) as nat) < b.mantissa * pow10(
            (scale - b.scale) as nat,
        ),
{
    let up_a = pow10((scale - a.scale) as nat);
    let up_b = pow10((scale - b.scale) as nat);
    lemma_pow10_adds((scale - a.scale) as nat, a.scale);
    lemma_pow10_adds((scale - b.scale) as nat, b.scale);
    lemma_pow10_adds(a.scale, 0);
    lemma_pow10_adds(b.scale, 0);
    let sa = pow10(a.scale);
    let sb = pow10(b.scale);
    // up_a * sa == up_b * sb == ten to the common scale
    assert(up_a * sa == up_b * sb);
    let x = a.mantissa as int;
    let y = b.mantissa as int;
    assert((x * sb < y * sa) <==> (x * up_a < y * up_b)) by (nonlinear_arith)
        requires
            up_a * sa == up_b * sb,
            up_a > 0,
            up_b > 0,
            sa > 0,
            sb > 0,
            x >= 0,
            y >= 0,
    {
        // x * sb < y * sa  <==>  x * sb * (up_a * up_b) < y * sa * (up_a * up_b)
        // and sb * up_b == sa * up_a, so both sides share the factor sa * up_a.
        assert((x * sb) * (up_a * up_b) == (x * up_a) * (up_b * sb));
        assert((y * sa) * (up_a * up_b) == (y * up_b) * (up_a * sa));
    }
}

/// The digits of a token before and after its first dot, where both are
/// digits only and not both are empty.
fn decimal_parts(token: &str) -> (parts: Option<(Vec<char>, Vec<char>)>)
    ensures
        match parts {
            Some((whole, fraction)) => {
                &&& decimal_of(token@) is Some
                &&& whole@ == whole_part(token@)
                &&& fraction@ == fraction_part(token@)
                &&& all_digits(whole@)
                &&& all_digits(fraction@)
            },
            None => decimal_of(token@) is None,
        },
{
    let chars = to_chars(token);
    let dot = to_chars(DOT);
    proof {
        lemma_find_from(token@, DOT@, 0);
    }
    let cut: usize = match chars_find(&chars, &dot, 0) {
        Some(i) => i,
        None => chars.len(),
    };
    let mut whole: Vec<char> = Vec::new();
    let mut fraction: Vec<char> = Vec::new();
    let mut i: usize = 0;
    while i < chars.len()
        invariant
            chars@ == token@,
            cut <= chars.len(),
            i <= chars.len(),
            whole_part(token@) == token@.take(cut as int),
            whole@ == token@.take(if i < cut {
                i as int
            } else {
                cut as int
            }),
            fraction@ == (if i <= cut {
                Seq::<char>::empty()
            } else {
                token@.subrange(cut + 1, i as int)
            }),
            all_digits(whole@),
            all_digits(fraction@),
        decreases chars.len() - i,
    {
        let c = chars[i];
        if i != cut {
            if !(c >= '0' && c <= '9') {
                proof {
                    if i < cut {
                        assert(whole_part(token@)[i as int] == c);
                    } else {
                        assert(fraction_part(token@)[i - cut - 1] == c);
                    }
                }
                return None;
            }
            if i < cut {
                whole.push(c);
            } else {
                fraction.push(c);
            }
        }
        i += 1;
    }
    if whole.len() == 0 && fraction.len() == 0 {
        return None;
    }
    Some((whole, fraction))
}

/// `whole` and `fraction` as one run of digits, with zeros in front and
/// behind to make up the lengths asked for.
fn aligned(
    whole: &Vec<char>,
    fraction: &Vec<char>,
    whole_len: usize,
    fraction_len: usize,
) -> (digits: Vec<char>)
    requires
        whole.len() <= whole_len,
        fraction.len() <= fraction_len,
    ensures
        digits@ == zeros((whole_len - whole.len()) as nat) + whole@ + fraction@ + zeros(
            (fraction_len - fraction.len()) as nat,
        ),
{
    let mut digits: Vec<char> = Vec::new();
    let lead: usize = whole_len - whole.len();
    let trail: usize = fraction_len - fraction.len();
    let mut i: usize = 0;
    while i < lead
        invariant
            i <= lead,
            digits@ == zeros(i as nat),
        decreases lead - i,
    {
        digits.push('0');
        i += 1;
    }
    i = 0;
    while i < whole.len()
        invariant
            i <= whole.len(),
            digits@ == zeros(lead as nat) + whole@.take(i as int),
        decreases whole.len() - i,
    {
        digits.push(whole[i]);
        i += 1;
    }
    i = 0;
    while i < fraction.len()
        invariant
            i <= fraction.len(),
            digits@ == zeros(lead as nat) + whole@ + fraction@.take(i as int),
        decreases fraction.len() - i,
    {
        digits.push(fraction[i]);
        i += 1;
    }
    i = 0;
    while i < trail
        invariant
            i <= trail,
            digits@ == zeros(lead as nat) + whole@ + fraction@ + zeros(i as nat),
        decreases trail - i,
    {
        digits.push('0');
        i += 1;
    }
    digits
}

/// What `aligned` builds is a run of digits, and its value is the mantissa
/// brought up by the zeros behind it.
proof fn lemma_aligned_value(whole: Seq<char>, fraction: Seq<char>, lead: nat, trail: nat)
    requires
        all_digits(whole),
        all_digits(fraction),
    ensures
        all_digits(zeros(lead) + whole + fraction + zeros(trail)),
        digits_value(zeros(lead) + whole + fraction + zeros(trail)) == digits_value(
            whole + fraction,
        ) * pow10(trail),
{
    let digits = zeros(lead) + whole + fraction + zeros(trail);
    assert(digits =~= zeros(lead) + (whole + fraction + zeros(trail)));
    lemma_leading_zeros(lead, whole + fraction + zeros(trail));
    lemma_trailing_zeros(whole + fraction, trail);
}

/// Whether both tokens write a number and that of `a` is the smaller.
pub fn decimal_less(a: &str, b: &str) -> (less: bool)
    ensures
        less == token_lt(a@, b@),
{
    let (a_whole, a_fraction) = match decimal_parts(a) {
        Some(parts) => parts,
        None => {
            return false;
        },
    };
    let (b_whole, b_fraction) = match decimal_parts(b) {
        Some(parts) => parts,
        None => {
            return false;
        },
    };
    let whole_len = if a_whole.len() > b_whole.len() {
        a_whole.len()
    } else {
        b_whole.len()
    };
    let fraction_len = if a_fraction.len() > b_fraction.len() {
        a_fraction.len()
    } else {
        b_fraction.len()
    };
    let x = aligned(&a_whole, &a_fraction, whole_len, fraction_len);
    let y = aligned(&b_whole, &b_fraction, whole_len, fraction_len);
    proof {
        lemma_aligned_value(
            a_whole@,
            a_fraction@,
            (whole_len - a_whole.len()) as nat,
            (fraction_len - a_fraction.len()) as nat,
        );
        lemma_aligned_value(
            b_whole@,
            b_fraction@,
            (whole_len - b_whole.len()) as nat,
            (fraction_len - b_fraction.len()) as nat,
        );
        lemma_same_length_order(x@, y@);
        lemma_compare_at_common_scale(
            decimal_of(a@)->0,
            decimal_of(b@)->0,
            fraction_len as nat,
        );
    }
    chars_less(&x, &y)
}

} // verus!
