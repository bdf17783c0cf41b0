//! ASCII digits and the numbers they write.

use vstd::prelude::*;
use vstd::arithmetic::power::{lemma_pow_increases, lemma_pow_positive, pow};

verus! {

/// The digit that a codepoint writes: `'0'` to `'9'` give 0 to 9, and no
/// other codepoint is a digit.
pub open spec fn digit_of(codepoint: u32) -> Option<u8> {
    if 0x30 <= codepoint <= 0x39 {
        Some((codepoint - 0x30) as u8)
    } else {
        None
    }
}

/// The number that `digits` write in base ten, most significant digit first:
/// the digit with `p` digits after it counts `10^p` times.
pub open spec fn decimal_value(digits: Seq<u8>) -> nat
    decreases digits.len(),
{
    if digits.len() == 0 {
        0
    } else {
        (digits[0] * pow(10, (digits.len() - 1) as nat)) as nat + decimal_value(
            digits.drop_first(),
        )
    }
}

/// One more digit at the end multiplies the number by ten and adds the digit.
pub proof fn lemma_decimal_value_push(digits: Seq<u8>, last: u8)
    ensures
        decimal_value(digits.push(last)) == 10 * decimal_value(digits) + last,
    decreases digits.len(),
{
    let longer = digits.push(last);
    if digits.len() == 0 {
        assert(decimal_value(longer.drop_first()) == 0);
        assert(pow(10, 0) == 1) by {
            reveal(pow);
        }
    } else {
        let first = digits[0] as int;
        let weight = pow(10, (digits.len() - 1) as nat);
        lemma_pow_positive(10, (digits.len() - 1) as nat);
        assert(pow(10, digits.len()) == 10 * weight) by {
            reveal(pow);
        }
        assert(longer.drop_first() =~= digits.drop_first().push(last));
        lemma_decimal_value_push(digits.drop_first(), last);
        assert(first * (10 * weight) == 10 * (first * weight)) by (nonlinear_arith);
    }
}

/// A number is at least as large as the number that any of its leading
/// digits write alone.
pub proof fn lemma_decimal_value_prefix(digits: Seq<u8>, n: int)
    requires
        0 <= n <= digits.len(),
    ensures
        decimal_value(digits.take(n)) <= decimal_value(digits),
    decreases digits.len() - n,
{
    if n == digits.len() {
        assert(digits.take(n) =~= digits);
    } else {
        lemma_decimal_value_prefix(digits, n + 1);
        lemma_decimal_value_push(digits.take(n), digits[n]);
        assert(digits.take(n).push(digits[n]) =~= digits.take(n + 1));
    }
}

/// Digits of nine at most write a number below the power of ten that has as
/// many zeros as there are digits.
pub proof fn lemma_decimal_value_bound(digits: Seq<u8>)
    requires
        forall|i: int| 0 <= i < digits.len() ==> #[trigger] digits[i] <= 9,
    ensures
        decimal_value(digits) < pow(10, digits.len()),
    decreases digits.len(),
{
    if digits.len() == 0 {
        assert(pow(10, 0) == 1) by {
            reveal(pow);
        }
    } else {
        let first = digits[0] as int;
        let rest = digits.drop_first();
        let weight = pow(10, rest.len());
        lemma_decimal_value_bound(rest);
        assert(pow(10, digits.len()) == 10 * weight) by {
            reveal(pow);
        }
        assert(0 <= first * weight <= 9 * weight) by (nonlinear_arith)
            requires
                0 <= first <= 9,
                weight > 0,
        ;
    }
}

/// A run of up to 19 digits writes a number that fits in 64 bits.
pub proof fn lemma_short_runs_fit(digits: Seq<u8>)
    requires
        digits.len() <= 19,
        forall|i: int| 0 <= i < digits.len() ==> #[trigger] digits[i] <= 9,
    ensures
        decimal_value(digits) <= u64::MAX,
{
    lemma_decimal_value_bound(digits);
    lemma_pow_increases(10, digits.len(), 19);
    assert(pow(10, 19) == 10_000_000_000_000_000_000) by {
        reveal_with_fuel(pow, 20);
    }
}

/// The digit that `unicode` writes, if it is an ASCII digit.
pub fn unicode_codepoint_to_number(unicode: u32) -> (digit: Option<u8>)
    ensures
        digit == digit_of(unicode),
{
    if 0x30 <= unicode && unicode <= 0x39 {
        Some((unicode - 0x30) as u8)
    } else {
        None
    }
}

/// The number that `digits` write, for a number that fits in 64 bits; for
/// any other, see `checked_digits_to_number`. An empty run writes zero.
pub fn digits_to_number(digits: &[u8]) -> (number: u64)
    requires
        decimal_value(digits@) <= u64::MAX,
    ensures
        number == decimal_value(digits@),
{
    let mut number: u64 = 0;
    let mut i: usize = 0;
    while i < digits.len()
        invariant
            0 <= i <= digits@.len(),
            number == decimal_value(digits@.take(i as int)),
            decimal_value(digits@) <= u64::MAX,
        decreases digits@.len() - i,
    {
        proof {
            lemma_decimal_value_push(digits@.take(i as int), digits@[i as int]);
            assert(digits@.take(i as int).push(digits@[i as int]) =~= digits@.take(i + 1));
            lemma_decimal_value_prefix(digits@, i + 1);
        }
        number = number * 10 + digits[i] as u64;
        i += 1;
    }
    assert(digits@.take(i as int) =~= digits@);
    number
}

/// The number that `digits` write, or `None` if it does not fit in 64 bits.
pub fn checked_digits_to_number(digits: &[u8]) -> (number: Option<u64>)
    ensures
        number == if decimal_value(digits@) <= u64::MAX {
            Some(decimal_value(digits@) as u64)
        } else {
            None
        },
{
    let mut number: u64 = 0;
    let mut i: usize = 0;
    while i < digits.len()
        invariant
            0 <= i <= digits@.len(),
            number == decimal_value(digits@.take(i as int)),
        decreases digits@.len() - i,
    {
        proof {
            lemma_decimal_value_push(digits@.take(i as int), digits@[i as int]);
            assert(digits@.take(i as int).push(digits@[i as int]) =~= digits@.take(i + 1));
            lemma_decimal_value_prefix(digits@, i + 1);
        }
        let shifted = match number.checked_mul(10) {
            Some(shifted) => shifted,
            None => {
                return None;
            },
        };
        number = match shifted.checked_add(digits[i] as u64) {
            Some(sum) => sum,
            None => {
                return None;
            },
        };
        i += 1;
    }
    assert(digits@.take(i as int) =~= digits@);
    Some(number)
}

} // verus!
