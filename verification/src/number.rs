//! Decimal number literals: their value, and reading it within 32 bits.

use crate::class::is_ascii_digit;
use vstd::prelude::*;

verus! {

/// Whether every byte of `digits` is a decimal digit.
pub open spec fn all_digits(digits: Seq<u8>) -> bool {
    forall|i: int| 0 <= i < digits.len() ==> is_ascii_digit(#[trigger] digits[i])
}

/// The number that the digits spell in base ten, most significant digit first.
/// The empty sequence spells zero.
pub open spec fn decimal_value(digits: Seq<u8>) -> nat
    recommends
        all_digits(digits),
    decreases digits.len(),
{
    if digits.len() == 0 {
        0
    } else {
        10 * decimal_value(digits.drop_last()) + (digits.last() - 0x30) as nat
    }
}

/// Digits appended to a literal never make its value smaller.
pub proof fn lemma_decimal_value_of_prefix(digits: Seq<u8>, n: int)
    requires
        all_digits(digits),
        0 <= n <= digits.len(),
    ensures
        decimal_value(digits.take(n)) <= decimal_value(digits),
    decreases digits.len(),
{
    if n == digits.len() {
        assert(digits.take(n) == digits);
    } else {
        let shorter = digits.drop_last();
        assert(shorter.take(n) == digits.take(n));
        lemma_decimal_value_of_prefix(shorter, n);
    }
}

/// Reads a run of decimal digits as an unsigned 32-bit number. A value beyond
/// 32 bits is reported as `None`, never wrapped or truncated.
pub(crate) fn parse_decimal(digits: &[u8]) -> (value: Option<u32>)
    requires
        all_digits(digits@),
    ensures
        decimal_value(digits@) <= u32::MAX ==> value == Some(decimal_value(digits@) as u32),
        decimal_value(digits@) > u32::MAX ==> value is None,
{
    let mut acc: u32 = 0;
    let mut i: usize = 0;
    while i < digits.len()
        invariant
            all_digits(digits@),
            i <= digits@.len(),
            acc == decimal_value(digits@.take(i as int)),
        decreases digits@.len() - i,
    {
        let digit: u8 = digits[i] - 0x30;
        let wider: u64 = 10 * (acc as u64) + (digit as u64);
        proof {
            let longer = digits@.take(i + 1);
            assert(longer.drop_last() == digits@.take(i as int));
            assert(decimal_value(longer) == wider);
            lemma_decimal_value_of_prefix(digits@, i + 1);
        }
        if wider > 0xFFFF_FFFF {
            return None;
        }
        acc = wider as u32;
        i += 1;
    }
    assert(digits@.take(i as int) == digits@);
    Some(acc)
}

} // verus!
