//! Field elements, instruction codes, and the description of a transaction.

use crate::ascii::{DIGIT_0, LOWER_X};
use crate::bigendian::{
    be_bytes, be_nat, lemma_be_bytes_of_be_nat, lemma_be_nat_concat, lemma_be_nat_of_be_bytes,
    pow256,
};
use crate::hex::{hex_string, hex_text, lemma_hex_text_shape};
use crate::builder::ApduError;
use crate::u256::{
    lemma_limbs_nat_bound, lemma_limbs_nat_injective, limbs_nat, limit, u256_from_str_radix,
    u256_from_u128, u256_to_big_endian, uint_text,
};
use vstd::prelude::*;
use vstd::string::StringSliceAdditionalSpecFns;

verus! {

/// A 256-bit unsigned number, held as four 64-bit limbs, least significant
/// first. Every value of the type is a number below `2^256`.
#[derive(Clone, Copy, Debug)]
pub struct FieldElement(pub [u64; 4]);

impl View for FieldElement {
    type V = nat;

    open spec fn view(&self) -> nat {
        limbs_nat(self.0)
    }
}

/// `s` starts with `0x`.
pub open spec fn has_hex_prefix(s: Seq<u8>) -> bool {
    s.len() >= 2 && s[0] == DIGIT_0 && s[1] == LOWER_X
}

/// The number that a call argument writes: hexadecimal where the text
/// starts with `0x`, decimal where it does not.
pub open spec fn felt_text(s: Seq<u8>) -> Option<nat> {
    if has_hex_prefix(s) {
        uint_text(s, 16)
    } else {
        uint_text(s, 10)
    }
}

/// The number of the 8 bytes of `bytes` from `base` on, most significant
/// first.
fn read_u64_be(bytes: &[u8; 32], base: usize) -> (r: u64)
    requires
        base + 8 <= 32,
    ensures
        r == be_nat(bytes@.subrange(base as int, base + 8)),
{
    let ghost part = bytes@.subrange(base as int, base + 8);
    let b0: u64 = bytes[base] as u64;
    let b1: u64 = bytes[base + 1] as u64;
    let b2: u64 = bytes[base + 2] as u64;
    let b3: u64 = bytes[base + 3] as u64;
    let b4: u64 = bytes[base + 4] as u64;
    let b5: u64 = bytes[base + 5] as u64;
    let b6: u64 = bytes[base + 6] as u64;
    let b7: u64 = bytes[base + 7] as u64;
    let r: u64 = ((((((b0 * 256 + b1) * 256 + b2) * 256 + b3) * 256 + b4) * 256 + b5) * 256 + b6)
        * 256 + b7;
    proof {
        let s7 = part.drop_last();
        let s6 = s7.drop_last();
        let s5 = s6.drop_last();
        let s4 = s5.drop_last();
        let s3 = s4.drop_last();
        let s2 = s3.drop_last();
        let s1 = s2.drop_last();
        assert(be_nat(s1.drop_last()) == 0);
        assert(be_nat(s1) == b0);
        assert(be_nat(s2) == b0 * 256 + b1);
        assert(be_nat(s3) == (b0 * 256 + b1) * 256 + b2);
        assert(be_nat(s4) == be_nat(s3) * 256 + b3);
        assert(be_nat(s5) == be_nat(s4) * 256 + b4);
        assert(be_nat(s6) == be_nat(s5) * 256 + b5);
        assert(be_nat(s7) == be_nat(s6) * 256 + b6);
        assert(be_nat(part) == be_nat(s7) * 256 + b7);
    }
    r
}

/// The number of 32 bytes, from the numbers of its four groups of 8.
proof fn lemma_be_nat_by_limbs(b: Seq<u8>)
    requires
        b.len() == 32,
    ensures
        be_nat(b) == be_nat(b.subrange(24, 32)) + be_nat(b.subrange(16, 24))
            * 0x1_0000_0000_0000_0000nat + be_nat(b.subrange(8, 16))
            * 0x1_0000_0000_0000_0000_0000_0000_0000_0000nat + be_nat(b.subrange(0, 8))
            * 0x1_0000_0000_0000_0000_0000_0000_0000_0000_0000_0000_0000_0000nat,
{
    let q3 = b.subrange(0, 8);
    let q2 = b.subrange(8, 16);
    let q1 = b.subrange(16, 24);
    let q0 = b.subrange(24, 32);
    assert(b =~= ((q3 + q2) + q1) + q0);
    lemma_be_nat_concat((q3 + q2) + q1, q0);
    lemma_be_nat_concat(q3 + q2, q1);
    lemma_be_nat_concat(q3, q2);
    assert(pow256(8) == 0x1_0000_0000_0000_0000nat) by {
        reveal_with_fuel(pow256, 9);
    }
    let w = 0x1_0000_0000_0000_0000nat;
    let (n3, n2, n1, n0) = (be_nat(q3), be_nat(q2), be_nat(q1), be_nat(q0));
    assert(((n3 * w + n2) * w + n1) * w + n0 == n0 + n1 * w + n2 * (w * w) + n3 * (w * w * w))
        by (nonlinear_arith);
    assert(w * w == 0x1_0000_0000_0000_0000_0000_0000_0000_0000nat) by (nonlinear_arith)
        requires
            w == 0x1_0000_0000_0000_0000nat,
    ;
    assert(w * w * w == 0x1_0000_0000_0000_0000_0000_0000_0000_0000_0000_0000_0000_0000nat)
        by (nonlinear_arith)
        requires
            w == 0x1_0000_0000_0000_0000nat,
    ;
}

impl FieldElement {
    /// The field element that 32 bytes write, most significant byte first.
    /// Encoding it gives the 32 bytes again.
    pub fn decode(bytes: &[u8; 32]) -> (r: FieldElement)
        ensures
            r@ == be_nat(bytes@),
            be_bytes(r@, 32) == bytes@,
    {
        let limbs: [u64; 4] = [
            read_u64_be(bytes, 24),
            read_u64_be(bytes, 16),
            read_u64_be(bytes, 8),
            read_u64_be(bytes, 0),
        ];
        proof {
            lemma_be_nat_by_limbs(bytes@);
            lemma_be_bytes_of_be_nat(bytes@);
        }
        FieldElement(limbs)
    }

    /// The number as text: 64 lowercase hexadecimal digits, zeros in front,
    /// no prefix.
    pub fn to_string(&self) -> (s: String)
        ensures
            s@ == hex_text(be_bytes(self@, 32)),
            s@.len() == 64,
    {
        let bytes: [u8; 32] = self.encode();
        proof {
            crate::bigendian::lemma_be_bytes_len(self@, 32);
            lemma_hex_text_shape(bytes@);
        }
        hex_string(bytes.as_slice())
    }

    /// Reads a number in the given base, 10 or 16.
    fn parse_radix(s: &str, radix: u32) -> (r: Result<FieldElement, ApduError>)
        ensures
            match uint_text(s.spec_bytes(), radix) {
                Some(v) => r is Ok && r->Ok_0@ == v,
                None => r == Err::<FieldElement, ApduError>(ApduError::MalformedNumber),
            },
    {
        match u256_from_str_radix(s, radix) {
            Ok(limbs) => Ok(FieldElement(limbs)),
            Err(_) => Err(ApduError::MalformedNumber),
        }
    }

    /// Reads a hexadecimal number, with or without a leading `0x`.
    pub fn parse_hex(s: &str) -> (r: Result<FieldElement, ApduError>)
        ensures
            match uint_text(s.spec_bytes(), 16) {
                Some(v) => r is Ok && r->Ok_0@ == v,
                None => r == Err::<FieldElement, ApduError>(ApduError::MalformedNumber),
            },
    {
        FieldElement::parse_radix(s, 16)
    }

    /// Reads a decimal number.
    pub fn parse_decimal(s: &str) -> (r: Result<FieldElement, ApduError>)
        ensures
            match uint_text(s.spec_bytes(), 10) {
                Some(v) => r is Ok && r->Ok_0@ == v,
                None => r == Err::<FieldElement, ApduError>(ApduError::MalformedNumber),
            },
    {
        FieldElement::parse_radix(s, 10)
    }

    /// Reads a call argument: hexadecimal where it starts with `0x`, decimal
    /// where it does not.
    pub fn parse(s: &str) -> (r: Result<FieldElement, ApduError>)
        ensures
            match felt_text(s.spec_bytes()) {
                Some(v) => r is Ok && r->Ok_0@ == v,
                None => r == Err::<FieldElement, ApduError>(ApduError::MalformedNumber),
            },
    {
        let bytes = s.as_bytes();
        if bytes.len() >= 2 && bytes[0] == DIGIT_0 && bytes[1] == LOWER_X {
            FieldElement::parse_radix(s, 16)
        } else {
            FieldElement::parse_radix(s, 10)
        }
    }

    /// The field element that holds the count `n`.
    pub fn from_u128(n: u128) -> (r: FieldElement)
        ensures
            r@ == n,
    {
        FieldElement(u256_from_u128(n))
    }

    /// The 32 bytes of the number, most significant first.
    pub fn encode(&self) -> (r: [u8; 32])
        ensures
            r@ == be_bytes(self@, 32),
    {
        u256_to_big_endian(self.0)
    }
}

/// What is shown of a field element: 64 characters, each a lowercase
/// hexadecimal digit, and the same for the same number.
pub proof fn lemma_canonical_text(f: FieldElement, g: FieldElement)
    ensures
        hex_text(be_bytes(f@, 32)).len() == 64,
        forall|i: int|
            0 <= i < 64 ==> crate::hex::is_lower_hex_char(#[trigger] hex_text(be_bytes(f@, 32))[i]),
        f@ == g@ ==> hex_text(be_bytes(f@, 32)) == hex_text(be_bytes(g@, 32)),
{
    crate::bigendian::lemma_be_bytes_len(f@, 32);
    lemma_hex_text_shape(be_bytes(f@, 32));
}

/// The number 256 to the power 32 is two to the power 256.
pub proof fn lemma_pow256_32()
    ensures
        pow256(32) == limit(),
{
    reveal_with_fuel(pow256, 33);
}

/// Decoding what was encoded gives the field element back: whatever field
/// element holds the number that the 32 bytes of `f` write is `f`.
pub proof fn lemma_decode_encode(f: FieldElement, g: FieldElement)
    requires
        g@ == be_nat(be_bytes(f@, 32)),
    ensures
        g == f,
{
    lemma_limbs_nat_bound(f.0);
    lemma_pow256_32();
    lemma_be_nat_of_be_bytes(f@, 32);
    lemma_limbs_nat_injective(g.0, f.0);
}

/// The instructions that the device knows.
#[derive(Clone, Copy, Debug, PartialEq, Eq, Structural)]
pub enum Ins {
    GetVersion,
    GetPubkey,
    SignHash,
    SignTx,
    PedersenHash,
}

impl Ins {
    /// The instruction byte of the header.
    pub open spec fn spec_code(self) -> u8 {
        match self {
            Ins::GetVersion => 0,
            Ins::GetPubkey => 1,
            Ins::SignHash => 2,
            Ins::SignTx => 3,
            Ins::PedersenHash => 4,
        }
    }

    /// The instruction byte of the header.
    #[verifier::when_used_as_spec(spec_code)]
    pub fn code(self) -> (b: u8)
        ensures
            b == self.spec_code(),
    {
        match self {
            Ins::GetVersion => 0,
            Ins::GetPubkey => 1,
            Ins::SignHash => 2,
            Ins::SignTx => 3,
            Ins::PedersenHash => 4,
        }
    }

    /// The instruction that a header byte names, if it names one.
    pub fn from_code(b: u8) -> (r: Option<Ins>)
        ensures
            match r {
                Some(ins) => ins.spec_code() == b,
                None => b > 4,
            },
    {
        if b == 0 {
            Some(Ins::GetVersion)
        } else if b == 1 {
            Some(Ins::GetPubkey)
        } else if b == 2 {
            Some(Ins::SignHash)
        } else if b == 3 {
            Some(Ins::SignTx)
        } else if b == 4 {
            Some(Ins::PedersenHash)
        } else {
            None
        }
    }
}

/// One call of a transaction: the contract, the entry point by name and by
/// selector, and the arguments in order.
#[derive(Clone, Debug)]
pub struct Call {
    pub to: String,
    pub entrypoint: String,
    pub selector: String,
    pub calldata: Vec<String>,
}

/// A transaction: its scalar fields and its calls in order.
#[derive(Clone, Debug)]
pub struct Tx {
    pub sender_address: String,
    pub max_fee: String,
    pub nonce: String,
    pub version: String,
    pub chain_id: String,
    pub calls: Vec<Call>,
}

} // verus!
