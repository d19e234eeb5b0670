use ethereum_types::U256;
use starknet_apdu_generator::builder::ApduError;
use starknet_apdu_generator::types::{FieldElement, Ins};

const TWO_POW_256: &str =
    "115792089237316195423570985008687907853269984665640564039457584007913129639936";
const TWO_POW_256_LESS_ONE: &str =
    "115792089237316195423570985008687907853269984665640564039457584007913129639935";

#[test]
fn parse_hex_reads_the_number() {
    let fe = FieldElement::parse_hex("1f").unwrap();
    assert_eq!(fe.0, [31, 0, 0, 0]);
    let fe = FieldElement::parse_hex("0x1F").unwrap();
    assert_eq!(fe.0, [31, 0, 0, 0]);
    let fe = FieldElement::parse_hex("10000000000000000").unwrap();
    assert_eq!(fe.0, [0, 1, 0, 0]);
}

#[test]
fn parse_hex_of_a_full_width_number() {
    let text = "07e00d496e324876bbc8531f2d9a82bf154d1a04a50218ee74cdd372f75a551a";
    let fe = FieldElement::parse_hex(text).unwrap();
    assert_eq!(
        fe.0,
        [0x74cdd372f75a551a, 0x154d1a04a50218ee, 0xbbc8531f2d9a82bf, 0x07e00d496e324876]
    );
    assert_eq!(fe.to_string(), text);
}

#[test]
fn parse_hex_of_nothing_is_zero() {
    assert_eq!(FieldElement::parse_hex("").unwrap().0, [0, 0, 0, 0]);
    assert_eq!(FieldElement::parse_hex("0x").unwrap().0, [0, 0, 0, 0]);
}

#[test]
fn parse_hex_takes_64_digits_and_no_more() {
    let max = "f".repeat(64);
    assert_eq!(FieldElement::parse_hex(&max).unwrap().0, [u64::MAX; 4]);
    let prefixed = format!("0x{}", max);
    assert_eq!(FieldElement::parse_hex(&prefixed).unwrap().0, [u64::MAX; 4]);
    let long = format!("0{}", max);
    assert_eq!(FieldElement::parse_hex(&long).err(), Some(ApduError::MalformedNumber));
}

#[test]
fn parse_hex_refuses_what_is_no_digit() {
    for text in ["g", "12 ", " 12", "0X12", "1x2", "-1", "+1", "0x0x1", "12é", "1_0"] {
        assert_eq!(
            FieldElement::parse_hex(text).err(),
            Some(ApduError::MalformedNumber),
            "{}",
            text
        );
    }
}

#[test]
fn parse_decimal_reads_the_number() {
    assert_eq!(FieldElement::parse_decimal("0").unwrap().0, [0, 0, 0, 0]);
    assert_eq!(FieldElement::parse_decimal("1000000000000000").unwrap().0, [1000000000000000, 0, 0, 0]);
    assert_eq!(FieldElement::parse_decimal("18446744073709551616").unwrap().0, [0, 1, 0, 0]);
    assert_eq!(FieldElement::parse_decimal("").unwrap().0, [0, 0, 0, 0]);
}

#[test]
fn parse_decimal_takes_numbers_below_two_to_the_256() {
    assert_eq!(FieldElement::parse_decimal(TWO_POW_256_LESS_ONE).unwrap().0, [u64::MAX; 4]);
    assert_eq!(
        FieldElement::parse_decimal(TWO_POW_256).err(),
        Some(ApduError::MalformedNumber)
    );
    let padded = format!("000{}", TWO_POW_256_LESS_ONE);
    assert_eq!(FieldElement::parse_decimal(&padded).unwrap().0, [u64::MAX; 4]);
}

#[test]
fn parse_decimal_refuses_what_is_no_digit() {
    for text in ["a", "0x10", "1 ", "+1", "-1", "1.0", "١"] {
        assert_eq!(
            FieldElement::parse_decimal(text).err(),
            Some(ApduError::MalformedNumber),
            "{}",
            text
        );
    }
}

#[test]
fn parse_goes_by_the_prefix() {
    assert_eq!(FieldElement::parse("10").unwrap().0, [10, 0, 0, 0]);
    assert_eq!(FieldElement::parse("0x10").unwrap().0, [16, 0, 0, 0]);
    assert_eq!(FieldElement::parse("0").unwrap().0, [0, 0, 0, 0]);
    assert_eq!(FieldElement::parse("ff").err(), Some(ApduError::MalformedNumber));
    assert_eq!(FieldElement::parse("0xfg").err(), Some(ApduError::MalformedNumber));
    assert_eq!(FieldElement::parse("0X10").err(), Some(ApduError::MalformedNumber));
}

#[test]
fn parsed_numbers_are_those_of_the_integer_type() {
    for text in ["0", "1", "255", "4294967296", "340282366920938463463374607431768211456"] {
        let want = U256::from_dec_str(text).unwrap();
        assert_eq!(FieldElement::parse_decimal(text).unwrap().0, want.0);
    }
    for text in ["0", "abcdef", "ABCDEF", "123456789abcdef0123456789abcdef0123456789"] {
        let want = U256::from_str_radix(text, 16).unwrap();
        assert_eq!(FieldElement::parse_hex(text).unwrap().0, want.0);
    }
}

#[test]
fn leading_zeros_do_not_show() {
    let plain = FieldElement::parse_hex("abc").unwrap().to_string();
    assert_eq!(plain, format!("{}abc", "0".repeat(61)));
    for text in ["0abc", "000abc", "0x000abc", "0xabc", "0ABC", "0x00AbC"] {
        assert_eq!(FieldElement::parse_hex(text).unwrap().to_string(), plain, "{}", text);
    }
    let full = format!("{}abc", "0".repeat(61));
    assert_eq!(FieldElement::parse_hex(&full).unwrap().to_string(), plain);
    let plain = FieldElement::parse_decimal("42").unwrap().to_string();
    assert_eq!(plain, format!("{}2a", "0".repeat(62)));
    for text in ["042", "0000000000000000000000000042"] {
        assert_eq!(FieldElement::parse_decimal(text).unwrap().to_string(), plain);
    }
}

#[test]
fn text_of_a_field_element_is_64_lowercase_digits() {
    for fe in [
        FieldElement([0, 0, 0, 0]),
        FieldElement([u64::MAX; 4]),
        FieldElement([0xABCDEF, 0, 0, 0x1]),
    ] {
        let text = fe.to_string();
        assert_eq!(text.len(), 64);
        assert!(text.bytes().all(|b| b.is_ascii_digit() || (b'a'..=b'f').contains(&b)));
    }
    assert_eq!(FieldElement([0, 0, 0, 0]).to_string(), "0".repeat(64));
    assert_eq!(FieldElement([u64::MAX; 4]).to_string(), "f".repeat(64));
    assert_eq!(
        FieldElement([0xABCDEF, 0, 0, 0x1]).to_string(),
        "0000000000000001000000000000000000000000000000000000000000abcdef"
    );
}

#[test]
fn encode_writes_32_bytes_most_significant_first() {
    let fe = FieldElement([0x0807060504030201, 0x100f0e0d0c0b0a09, 0x1817161514131211, 0x201f1e1d1c1b1a19]);
    let bytes = fe.encode();
    let want: Vec<u8> = (1..=32u8).rev().collect();
    assert_eq!(bytes.to_vec(), want);
    assert_eq!(FieldElement([1, 0, 0, 0]).encode()[31], 1);
    assert!(FieldElement([1, 0, 0, 0]).encode()[..31].iter().all(|b| *b == 0));
    assert_eq!(FieldElement::from_u128(1000).encode()[30..], [0x03, 0xe8]);
}

#[test]
fn decode_reads_32_bytes_most_significant_first() {
    let mut bytes = [0u8; 32];
    bytes[31] = 0x2a;
    assert_eq!(FieldElement::decode(&bytes).0, [42, 0, 0, 0]);
    bytes[0] = 0x80;
    assert_eq!(FieldElement::decode(&bytes).0, [42, 0, 0, 0x8000000000000000]);
    let counted: Vec<u8> = (1..=32u8).collect();
    let mut bytes = [0u8; 32];
    bytes.copy_from_slice(&counted);
    assert_eq!(
        FieldElement::decode(&bytes).0,
        [0x191a1b1c1d1e1f20, 0x1112131415161718, 0x090a0b0c0d0e0f10, 0x0102030405060708]
    );
}

#[test]
fn decode_undoes_encode() {
    for limbs in [
        [0u64, 0, 0, 0],
        [u64::MAX; 4],
        [1, 2, 3, 4],
        [0xdeadbeef, 0, 0xfeedface, 0x8000000000000000],
        [0x74cdd372f75a551a, 0x154d1a04a50218ee, 0xbbc8531f2d9a82bf, 0x07e00d496e324876],
    ] {
        let fe = FieldElement(limbs);
        assert_eq!(FieldElement::decode(&fe.encode()).0, limbs);
    }
}

#[test]
fn encode_undoes_decode() {
    let mut bytes = [0u8; 32];
    for (i, b) in bytes.iter_mut().enumerate() {
        *b = (i as u8).wrapping_mul(37).wrapping_add(11);
    }
    assert_eq!(FieldElement::decode(&bytes).encode(), bytes);
}

#[test]
fn from_u128_holds_the_count() {
    assert_eq!(FieldElement::from_u128(0).0, [0, 0, 0, 0]);
    assert_eq!(FieldElement::from_u128(7).0, [7, 0, 0, 0]);
    assert_eq!(FieldElement::from_u128(u128::MAX).0, [u64::MAX, u64::MAX, 0, 0]);
    assert_eq!(FieldElement::from_u128(1 << 64).0, [0, 1, 0, 0]);
}

#[test]
fn instruction_codes() {
    assert_eq!(Ins::GetVersion.code(), 0);
    assert_eq!(Ins::GetPubkey.code(), 1);
    assert_eq!(Ins::SignHash.code(), 2);
    assert_eq!(Ins::SignTx.code(), 3);
    assert_eq!(Ins::PedersenHash.code(), 4);
    for b in 0..=4u8 {
        assert_eq!(Ins::from_code(b).unwrap().code(), b);
    }
    assert_eq!(Ins::from_code(3), Some(Ins::SignTx));
    assert_eq!(Ins::from_code(5), None);
    assert_eq!(Ins::from_code(255), None);
}
