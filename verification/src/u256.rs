//! The 256-bit unsigned integer of `ethereum_types`, seen as its four
//! 64-bit limbs.

use crate::ascii::{DIGIT_0, LOWER_X};
use crate::bigendian::be_bytes;
use crate::radix::{all_digits, digits_value, lemma_leading_zero};
use ethereum_types::{FromStrRadixErr, U256};
use vstd::prelude::*;
use vstd::string::StringSliceAdditionalSpecFns;

verus! {

/// The error that `U256::from_str_radix` reports.
#[verifier::external_type_specification]
#[verifier::external_body]
pub struct ExFromStrRadixErr(FromStrRadixErr);

/// Two to the power 256: the first number that does not fit.
pub open spec fn limit() -> nat {
    0x1_0000_0000_0000_0000_0000_0000_0000_0000_0000_0000_0000_0000_0000_0000_0000_0000nat
}

/// The number held in four limbs, least significant limb first.
pub open spec fn limbs_nat(limbs: [u64; 4]) -> nat {
    (limbs[0] as nat) + (limbs[1] as nat) * 0x1_0000_0000_0000_0000nat + (limbs[2] as nat)
        * 0x1_0000_0000_0000_0000_0000_0000_0000_0000nat + (limbs[3] as nat)
        * 0x1_0000_0000_0000_0000_0000_0000_0000_0000_0000_0000_0000_0000nat
}

/// `s` without one leading `0x`, if it has one.
pub open spec fn strip_hex_prefix(s: Seq<u8>) -> Seq<u8> {
    if s.len() >= 2 && s[0] == DIGIT_0 && s[1] == LOWER_X {
        s.skip(2)
    } else {
        s
    }
}

/// The number that the text `s` writes in the base `radix`, where it writes
/// one.
///
/// In base 16 one leading `0x` is dropped, then at most 64 digits of either
/// case may follow. In base 10 only digits may stand, and the number has to
/// be below `2^256`. An empty digit string writes zero. No other base is
/// read.
pub open spec fn uint_text(s: Seq<u8>, radix: u32) -> Option<nat> {
    if radix == 16 {
        let t = strip_hex_prefix(s);
        if t.len() <= 64 && all_digits(t, 16) {
            Some(digits_value(t, 16))
        } else {
            None
        }
    } else if radix == 10 {
        if all_digits(s, 10) && digits_value(s, 10) < limit() {
            Some(digits_value(s, 10))
        } else {
            None
        }
    } else {
        None
    }
}

/// `U256::from_str_radix`, with the limbs of the number it returns.
///
/// Trusted: the call succeeds exactly on the texts that `uint_text` reads,
/// and then returns the number that `uint_text` gives.
#[verifier::external_body]
pub(crate) fn u256_from_str_radix(txt: &str, radix: u32) -> (r: Result<[u64; 4], FromStrRadixErr>)
    ensures
        r is Ok <==> uint_text(txt.spec_bytes(), radix) is Some,
        r is Ok ==> Some(limbs_nat(r->Ok_0)) == uint_text(txt.spec_bytes(), radix),
{
    match U256::from_str_radix(txt, radix) {
        Ok(v) => Ok(v.0),
        Err(e) => Err(e),
    }
}

/// `U256::to_big_endian` on a buffer of 32 bytes.
///
/// Trusted: the bytes written are the number, most significant byte first.
#[verifier::external_body]
pub(crate) fn u256_to_big_endian(limbs: [u64; 4]) -> (r: [u8; 32])
    ensures
        r@ == be_bytes(limbs_nat(limbs), 32),
{
    let mut out = [0u8; 32];
    U256(limbs).to_big_endian(&mut out);
    out
}

/// `U256::from` on a `u128`.
///
/// Trusted: the number returned is the number given.
#[verifier::external_body]
pub(crate) fn u256_from_u128(n: u128) -> (r: [u64; 4])
    ensures
        limbs_nat(r) == n,
{
    U256::from(n).0
}

/// `n` times the digit `0`.
pub open spec fn zero_digits(n: nat) -> Seq<u8> {
    Seq::new(n, |i: int| DIGIT_0)
}

/// The prefix `0x`.
pub open spec fn hex_prefix() -> Seq<u8> {
    seq![DIGIT_0, LOWER_X]
}

/// Zeros in front of digits do not change the number that the digits
/// write.
pub proof fn lemma_zero_digits_value(digits: Seq<u8>, n: nat, radix: nat)
    ensures
        digits_value(zero_digits(n) + digits, radix) == digits_value(digits, radix),
    decreases n,
{
    if n == 0 {
        assert(zero_digits(n) + digits =~= digits);
    } else {
        let rest = zero_digits((n - 1) as nat) + digits;
        lemma_zero_digits_value(digits, (n - 1) as nat, radix);
        lemma_leading_zero(rest, radix);
        assert(zero_digits(n) + digits =~= seq![DIGIT_0] + rest);
    }
}

/// A number is read the same with zeros in front of its digits: in base 10
/// always, in base 16 as long as there are no more than 64 digits, and
/// there also behind the prefix `0x`. What is shown of a number that was
/// read depends on the number alone, so the zeros do not show either.
pub proof fn lemma_leading_zeros(digits: Seq<u8>, n: nat, radix: u32)
    requires
        radix == 10 || radix == 16,
        all_digits(digits, radix as nat),
        radix == 16 ==> n + digits.len() <= 64,
        radix == 10 ==> digits_value(digits, 10) < limit(),
    ensures
        uint_text(digits, radix) == Some(digits_value(digits, radix as nat)),
        uint_text(zero_digits(n) + digits, radix) == uint_text(digits, radix),
        radix == 16 ==> uint_text(hex_prefix() + digits, 16) == uint_text(digits, 16),
        radix == 16 ==> uint_text(hex_prefix() + (zero_digits(n) + digits), 16) == uint_text(
            digits,
            16,
        ),
{
    let padded = zero_digits(n) + digits;
    lemma_zero_digits_value(digits, n, radix as nat);
    assert(all_digits(padded, radix as nat)) by {
        assert forall|i: int| 0 <= i < padded.len() implies crate::radix::is_digit(
            #[trigger] padded[i],
            radix as nat,
        ) by {
            if i >= n {
                assert(padded[i] == digits[i - n]);
            }
        }
    }
    if radix == 16 {
        assert(strip_hex_prefix(digits) == digits) by {
            if digits.len() >= 2 {
                assert(crate::radix::is_digit(digits[1], 16));
            }
        }
        assert(strip_hex_prefix(padded) == padded) by {
            if padded.len() >= 2 {
                assert(crate::radix::is_digit(padded[1], 16));
            }
        }
        assert(strip_hex_prefix(hex_prefix() + digits) =~= digits);
        assert(strip_hex_prefix(hex_prefix() + padded) =~= padded);
    }
}

/// Different limbs hold different numbers.
pub proof fn lemma_limbs_nat_injective(a: [u64; 4], b: [u64; 4])
    requires
        limbs_nat(a) == limbs_nat(b),
    ensures
        a == b,
{
    assert(a[0] == b[0] && a[1] == b[1] && a[2] == b[2] && a[3] == b[3]);
    assert(a@ =~= b@);
}

/// Four limbs hold a number below `2^256`.
pub proof fn lemma_limbs_nat_bound(a: [u64; 4])
    ensures
        limbs_nat(a) < limit(),
{
}

} // verus!
