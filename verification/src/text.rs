//! Reading decimal integers from the bytes of a text field.

use vstd::prelude::*;

verus! {

/// The byte `+`.
pub const PLUS: u8 = 43;

/// The byte `-`.
pub const MINUS: u8 = 45;

/// The byte `0`.
pub const ZERO: u8 = 48;

/// The byte `9`.
pub const NINE: u8 = 57;

/// Whether every byte of `digits` is a decimal digit.
pub open spec fn all_digits(digits: Seq<u8>) -> bool {
    forall|i: int| 0 <= i < digits.len() ==> ZERO <= #[trigger] digits[i] <= NINE
}

/// The number that a run of decimal digits denotes, most significant digit
/// first. The empty run denotes zero.
pub open spec fn digits_value(digits: Seq<u8>) -> nat
    decreases digits.len(),
{
    if digits.len() == 0 {
        0
    } else {
        digits_value(digits.drop_last()) * 10 + (digits.last() - ZERO) as nat
    }
}

/// Whether `text` starts with a sign.
pub open spec fn has_sign(text: Seq<u8>) -> bool {
    text.len() > 0 && (text[0] == PLUS || text[0] == MINUS)
}

/// The part of `text` after its sign, if it has one.
pub open spec fn unsigned_part(text: Seq<u8>) -> Seq<u8> {
    if has_sign(text) {
        text.skip(1)
    } else {
        text
    }
}

/// The integer that `text` denotes before any range check: an optional sign
/// followed by the digits' value.
pub open spec fn signed_value(text: Seq<u8>) -> int {
    if text.len() > 0 && text[0] == MINUS {
        -(digits_value(unsigned_part(text)) as int)
    } else {
        digits_value(unsigned_part(text)) as int
    }
}

/// The 32-bit signed integer that `text` reads as: an optional `+` or `-`,
/// then one or more decimal digits and nothing else, denoting a number that
/// fits the type. Any other text reads as no integer.
pub open spec fn int_reading(text: Seq<u8>) -> Option<i32> {
    let digits = unsigned_part(text);
    if digits.len() > 0 && all_digits(digits) && i32::MIN <= signed_value(text) <= i32::MAX {
        Some(signed_value(text) as i32)
    } else {
        None
    }
}

/// A run of digits denotes at least as much as any of its prefixes.
pub proof fn lemma_digits_value_monotone(digits: Seq<u8>, k: int)
    requires
        0 <= k <= digits.len(),
        all_digits(digits),
    ensures
        digits_value(digits.take(k)) <= digits_value(digits),
    decreases digits.len(),
{
    if k == digits.len() {
        assert(digits.take(k) =~= digits);
    } else {
        let shorter = digits.drop_last();
        assert(shorter.take(k) =~= digits.take(k));
        lemma_digits_value_monotone(shorter, k);
    }
}

/// Reads `text` as a 32-bit signed decimal integer.
pub fn parse_i32(text: &[u8]) -> (value: Option<i32>)
    ensures
        value == int_reading(text@),
{
    let n: usize = text.len();
    if n == 0 {
        return None;
    }
    let negative: bool = text[0] == MINUS;
    let start: usize = if text[0] == PLUS || text[0] == MINUS { 1 } else { 0 };
    if start == n {
        return None;
    }
    let ghost digits = unsigned_part(text@);
    let mut magnitude: i64 = 0;
    let mut i: usize = start;
    while i < n
        invariant
            start <= i <= n,
            n == text@.len(),
            digits == unsigned_part(text@),
            digits == text@.subrange(start as int, n as int),
            all_digits(digits.take(i - start)),
            magnitude == digits_value(digits.take(i - start)),
            magnitude <= 0x8000_0000,
        decreases n - i,
    {
        let c: u8 = text[i];
        if c < ZERO || c > NINE {
            assert(digits[i - start] == c);
            return None;
        }
        let ghost before = digits.take(i - start);
        let ghost after = digits.take(i - start + 1);
        assert(after.drop_last() =~= before);
        magnitude = magnitude * 10 + (c - ZERO) as i64;
        if magnitude > 0x8000_0000 {
            proof {
                if all_digits(digits) {
                    lemma_digits_value_monotone(digits, i - start + 1);
                }
            }
            return None;
        }
        i += 1;
    }
    assert(digits.take(n - start) =~= digits);
    if negative {
        Some((-magnitude) as i32)
    } else if magnitude <= 0x7fff_ffff {
        Some(magnitude as i32)
    } else {
        None
    }
}

} // verus!
