//! Digit strings in base 10 and 16, as bytes of text.

use crate::ascii::{DIGIT_0, DIGIT_9, LOWER_A, LOWER_F, UPPER_A, UPPER_F};
use vstd::prelude::*;

verus! {

/// `b` is one of `0` to `9`.
pub open spec fn is_dec_digit(b: u8) -> bool {
    DIGIT_0 <= b <= DIGIT_9
}

/// `b` is one of `0` to `9`, `a` to `f` or `A` to `F`.
pub open spec fn is_hex_digit(b: u8) -> bool {
    is_dec_digit(b) || LOWER_A <= b <= LOWER_F || UPPER_A <= b <= UPPER_F
}

/// `b` is a digit of the base `radix` (10 or 16).
pub open spec fn is_digit(b: u8, radix: nat) -> bool {
    if radix == 16 {
        is_hex_digit(b)
    } else {
        is_dec_digit(b)
    }
}

/// What the digit `b` counts.
pub open spec fn digit_value(b: u8) -> nat {
    if is_dec_digit(b) {
        (b - DIGIT_0) as nat
    } else if LOWER_A <= b <= LOWER_F {
        (b - LOWER_A + 10) as nat
    } else {
        (b - UPPER_A + 10) as nat
    }
}

/// Every byte of `s` is a digit of the base.
pub open spec fn all_digits(s: Seq<u8>, radix: nat) -> bool {
    forall|i: int| 0 <= i < s.len() ==> is_digit(#[trigger] s[i], radix)
}

/// The number that the digits `s` write in the base. The empty string
/// writes zero.
pub open spec fn digits_value(s: Seq<u8>, radix: nat) -> nat
    decreases s.len(),
{
    if s.len() == 0 {
        0
    } else {
        digits_value(s.drop_last(), radix) * radix + digit_value(s.last())
    }
}

/// Zeros in front of a digit string do not change its number.
pub proof fn lemma_leading_zero(s: Seq<u8>, radix: nat)
    ensures
        digits_value(seq![DIGIT_0] + s, radix) == digits_value(s, radix),
    decreases s.len(),
{
    let z = seq![DIGIT_0];
    if s.len() == 0 {
        assert(z + s =~= z);
        assert(z.drop_last() =~= Seq::<u8>::empty());
        assert(digits_value(z, radix) == digits_value(z.drop_last(), radix) * radix + 0);
        assert(0 * radix == 0) by (nonlinear_arith);
    } else {
        lemma_leading_zero(s.drop_last(), radix);
        assert((z + s).drop_last() =~= z + s.drop_last());
    }
}

} // verus!
