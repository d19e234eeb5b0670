//! The single frames that the instructions are made of.

use crate::apdu::{Apdu, ApduHeader, Frame};
use crate::ascii::DIGIT_0;
use crate::bigendian::{be_bytes, lemma_be_bytes_len};
use crate::builder::{append_felt, felts_ok, felts_payload, felts_values, yields, ApduError};
use crate::path::{derivation_path, parse_derivation_path};
use crate::types::{Call, FieldElement};
use crate::u256::uint_text;
use vstd::prelude::*;
use vstd::string::{StringExecFns, StringSliceAdditionalSpecFns};
use vstd::utf8::encode_utf8;

verus! {

/// The payload that carries the segments of a path: 4 bytes each, most
/// significant first, in the order of the path.
pub open spec fn segments_payload(segs: Seq<u32>) -> Seq<u8>
    decreases segs.len(),
{
    if segs.len() == 0 {
        Seq::empty()
    } else {
        segments_payload(segs.drop_last()) + be_bytes(segs.last() as nat, 4)
    }
}

/// The frame of the derivation path `path`. A frame has room for 63
/// segments; with more, the 64th finds 3 bytes free.
pub open spec fn path_frame(path: Seq<u8>, header: ApduHeader) -> Result<Frame, ApduError> {
    match derivation_path(path) {
        None => Err(ApduError::InvalidPathSegment),
        Some(segs) => if segs.len() <= 63 {
            Ok(Frame { header, payload: segments_payload(segs) })
        } else {
            Err(ApduError::CapacityExceeded(3))
        },
    }
}

/// The payload of the segments has 4 bytes for each.
pub proof fn lemma_segments_payload_len(segs: Seq<u32>)
    ensures
        segments_payload(segs).len() == 4 * segs.len(),
    decreases segs.len(),
{
    if segs.len() > 0 {
        lemma_segments_payload_len(segs.drop_last());
        lemma_be_bytes_len(segs.last() as nat, 4);
    }
}

/// In the payload of a path, the 4 bytes at the place `i` are those of the
/// segment number `i`: the segments stand in the order of the path.
pub proof fn lemma_segments_payload_at(segs: Seq<u32>, i: int)
    requires
        0 <= i < segs.len(),
    ensures
        segments_payload(segs).len() == 4 * segs.len(),
        segments_payload(segs).subrange(4 * i, 4 * i + 4) == be_bytes(segs[i] as nat, 4),
    decreases segs.len(),
{
    let head = segments_payload(segs.drop_last());
    let tail = be_bytes(segs.last() as nat, 4);
    lemma_segments_payload_len(segs);
    lemma_segments_payload_len(segs.drop_last());
    lemma_be_bytes_len(segs.last() as nat, 4);
    if i == segs.len() - 1 {
        assert((head + tail).subrange(4 * i, 4 * i + 4) =~= tail);
    } else {
        lemma_segments_payload_at(segs.drop_last(), i);
        assert((head + tail).subrange(4 * i, 4 * i + 4) =~= head.subrange(4 * i, 4 * i + 4));
    }
}

/// The 4 bytes of `v`, most significant first.
fn u32_be_bytes(v: u32) -> (r: [u8; 4])
    ensures
        r@ == be_bytes(v as nat, 4),
{
    let r: [u8; 4] = [
        (v / 0x100_0000) as u8,
        ((v / 0x1_0000) % 0x100) as u8,
        ((v / 0x100) % 0x100) as u8,
        (v % 0x100) as u8,
    ];
    proof {
        reveal_with_fuel(be_bytes, 5);
        assert(r@ =~= be_bytes(v as nat, 4));
    }
    r
}

/// The frame that carries a derivation path.
pub fn set_derivation_path_apdu(path: &str, apdu_header: ApduHeader) -> (r: Result<
    Apdu,
    ApduError,
>)
    ensures
        yields(r, path_frame(path.spec_bytes(), apdu_header)),
{
    let segs = match parse_derivation_path(path.as_bytes()) {
        Some(segs) => segs,
        None => {
            return Err(ApduError::InvalidPathSegment);
        },
    };
    let mut apdu = Apdu::new(apdu_header.cla, apdu_header.ins, apdu_header.p1, apdu_header.p2);
    let mut i: usize = 0;
    assert(segs@.take(0) =~= Seq::<u32>::empty());
    while i < segs.len()
        invariant
            i <= segs@.len(),
            i <= 63,
            derivation_path(path.spec_bytes()) == Some(segs@),
            apdu.wf(),
            apdu.is_clean(),
            apdu.header == apdu_header,
            apdu.len == 4 * i,
            apdu.payload() == segments_payload(segs@.take(i as int)),
        decreases segs@.len() - i,
    {
        let bytes: [u8; 4] = u32_be_bytes(segs[i]);
        proof {
            lemma_be_bytes_len(segs@[i as int] as nat, 4);
            assert(segs@.take(i + 1).drop_last() =~= segs@.take(i as int));
        }
        match apdu.append(bytes.as_slice()) {
            Ok(()) => {},
            Err(free) => {
                return Err(ApduError::CapacityExceeded(free));
            },
        }
        i += 1;
    }
    assert(segs@.take(i as int) =~= segs@);
    Ok(apdu)
}

/// How many arguments the calls have together.
pub open spec fn total_calldata(calls: Seq<Call>) -> nat
    decreases calls.len(),
{
    if calls.len() == 0 {
        0
    } else {
        total_calldata(calls.drop_last()) + calls.last().calldata@.len()
    }
}

/// The frame that announces the calls: how many there are, and how many
/// arguments they have together.
pub open spec fn callarray_len_frame(calls: Seq<Call>, header: ApduHeader) -> Frame {
    Frame {
        header,
        payload: be_bytes(calls.len(), 32) + be_bytes(total_calldata(calls), 32),
    }
}

/// Counts the arguments of all calls.
pub fn count_calldata(calls: &[Call]) -> (total: u128)
    ensures
        total == total_calldata(calls@),
{
    let mut total: u128 = 0;
    let mut i: usize = 0;
    assert(calls@.take(0) =~= Seq::<Call>::empty());
    while i < calls.len()
        invariant
            i <= calls@.len(),
            total == total_calldata(calls@.take(i as int)),
            total <= i * 0xFFFF_FFFF_FFFF_FFFF,
        decreases calls@.len() - i,
    {
        proof {
            assert(calls@.take(i + 1).drop_last() =~= calls@.take(i as int));
        }
        total = total + calls[i].calldata.len() as u128;
        i += 1;
    }
    assert(calls@.take(i as int) =~= calls@);
    total
}

/// The frame that announces the calls.
pub fn callarray_len_apdu(calls: &[Call], apdu_header: ApduHeader) -> (apdu: Apdu)
    ensures
        apdu.holds(callarray_len_frame(calls@, apdu_header)),
{
    let mut apdu = Apdu::new(apdu_header.cla, apdu_header.ins, apdu_header.p1, apdu_header.p2);
    append_felt(&mut apdu, &FieldElement::from_u128(calls.len() as u128));
    append_felt(&mut apdu, &FieldElement::from_u128(count_calldata(calls)));
    assert(apdu.payload() =~= callarray_len_frame(calls@, apdu_header).payload);
    apdu
}

/// The frame that describes one call: the contract, the length of the
/// name of the entry point in one byte, the name, the number of arguments
/// of the calls before this one, and the number of arguments of this one.
///
/// A name of more than 158 bytes does not leave room for what follows it:
/// the error tells how many bytes were free where the frame overflowed.
pub open spec fn call_metadata_frame(c: Call, offset: nat, header: ApduHeader) -> Result<
    Frame,
    ApduError,
> {
    let name = encode_utf8(c.entrypoint@);
    match uint_text(encode_utf8(c.to@), 16) {
        None => Err(ApduError::MalformedNumber),
        Some(to) => if name.len() > 222 {
            Err(ApduError::CapacityExceeded(222))
        } else if name.len() > 190 {
            Err(ApduError::CapacityExceeded((222 - name.len()) as usize))
        } else if name.len() > 158 {
            Err(ApduError::CapacityExceeded((190 - name.len()) as usize))
        } else {
            Ok(
                Frame {
                    header,
                    payload: be_bytes(to, 32) + seq![name.len() as u8] + name + be_bytes(offset, 32)
                        + be_bytes(c.calldata@.len(), 32),
                },
            )
        },
    }
}

/// The frame that describes one call by the name of its entry point.
/// `offset` is the number of arguments of the calls before it: 0 for the
/// first call of a transaction.
pub fn callarray_v1_apdu(c: &Call, apdu_header: ApduHeader, offset: u128) -> (r: Result<
    Apdu,
    ApduError,
>)
    ensures
        yields(r, call_metadata_frame(*c, offset as nat, apdu_header)),
{
    let mut apdu = Apdu::new(apdu_header.cla, apdu_header.ins, apdu_header.p1, apdu_header.p2);
    if let Err(e) = append_text(&mut apdu, c.to.as_str(), 16) {
        return Err(e);
    }
    let name = c.entrypoint.as_str().as_bytes();
    let n: usize = name.len();
    if n > 222 {
        return Err(ApduError::CapacityExceeded(222));
    }
    let size: [u8; 1] = [n as u8];
    apdu.append(size.as_slice()).unwrap();
    apdu.append(name).unwrap();
    let ghost head = apdu.payload();
    let offset_bytes: [u8; 32] = FieldElement::from_u128(offset).encode();
    let count_bytes: [u8; 32] = FieldElement::from_u128(c.calldata.len() as u128).encode();
    proof {
        lemma_be_bytes_len(offset as nat, 32);
        lemma_be_bytes_len(c.calldata@.len(), 32);
    }
    if let Err(free) = apdu.append(offset_bytes.as_slice()) {
        return Err(ApduError::CapacityExceeded(free));
    }
    if let Err(free) = apdu.append(count_bytes.as_slice()) {
        return Err(ApduError::CapacityExceeded(free));
    }
    assert(apdu.payload() =~= call_metadata_frame(*c, offset as nat, apdu_header)->Ok_0.payload);
    Ok(apdu)
}

/// The one frame that carries all of `calldata`. The arguments are read and
/// appended in turn, and a frame has room for seven: the eighth is still
/// read, and then finds 31 bytes free.
pub open spec fn calldata_v1_frame(calldata: Seq<String>, header: ApduHeader) -> Result<
    Frame,
    ApduError,
> {
    if !felts_ok(calldata.take(if calldata.len() <= 8 { calldata.len() as int } else { 8 })) {
        Err(ApduError::MalformedNumber)
    } else if calldata.len() > 7 {
        Err(ApduError::CapacityExceeded(31))
    } else {
        Ok(Frame { header, payload: felts_payload(felts_values(calldata)) })
    }
}

/// One frame with all the arguments of a call.
pub fn calldata_v1_apdu(calldata: &[String], apdu_header: ApduHeader) -> (r: Result<
    Apdu,
    ApduError,
>)
    ensures
        yields(r, calldata_v1_frame(calldata@, apdu_header)),
{
    let ghost values = felts_values(calldata@);
    let ghost read = if calldata@.len() <= 8 {
        calldata@.len() as int
    } else {
        8
    };
    let mut apdu = Apdu::new(apdu_header.cla, apdu_header.ins, apdu_header.p1, apdu_header.p2);
    let mut i: usize = 0;
    assert(values.take(0) =~= Seq::<nat>::empty());
    while i < calldata.len()
        invariant
            i <= calldata@.len(),
            i <= 7,
            values == felts_values(calldata@),
            read == if calldata@.len() <= 8 {
                calldata@.len() as int
            } else {
                8
            },
            felts_ok(calldata@.take(i as int)),
            apdu.wf(),
            apdu.is_clean(),
            apdu.header == apdu_header,
            apdu.len == 32 * i,
            apdu.payload() == felts_payload(values.take(i as int)),
        decreases calldata@.len() - i,
    {
        let fe = match FieldElement::parse(calldata[i].as_str()) {
            Ok(fe) => fe,
            Err(e) => {
                assert(calldata@.take(read)[i as int] == calldata@[i as int]);
                return Err(e);
            },
        };
        let bytes: [u8; 32] = fe.encode();
        proof {
            lemma_be_bytes_len(fe@, 32);
            assert(values.take(i + 1).drop_last() =~= values.take(i as int));
            assert forall|j: int| 0 <= j < i + 1 implies crate::types::felt_text(
                encode_utf8(#[trigger] calldata@.take(i + 1)[j]@),
            ) is Some by {
                if j < i {
                    assert(calldata@.take(i as int)[j] == calldata@[j]);
                }
            }
        }
        match apdu.append(bytes.as_slice()) {
            Ok(()) => {},
            Err(free) => {
                assert(calldata@.take(read) =~= calldata@.take(i + 1));
                return Err(ApduError::CapacityExceeded(free));
            },
        }
        i += 1;
    }
    assert(values.take(i as int) =~= values);
    assert(calldata@.take(read) =~= calldata@.take(i as int));
    Ok(apdu)
}

/// The frame of the fields of a transaction: sender and chain in
/// hexadecimal, fee, nonce and version in decimal.
pub open spec fn tx_metadata_frame(
    sender_address: Seq<u8>,
    max_fee: Seq<u8>,
    chain_id: Seq<u8>,
    nonce: Seq<u8>,
    version: Seq<u8>,
    header: ApduHeader,
) -> Result<Frame, ApduError> {
    match (
        uint_text(sender_address, 16),
        uint_text(max_fee, 10),
        uint_text(chain_id, 16),
        uint_text(nonce, 10),
        uint_text(version, 10),
    ) {
        (Some(sender), Some(fee), Some(chain), Some(nonce), Some(version)) => Ok(
            Frame {
                header,
                payload: be_bytes(sender, 32) + be_bytes(fee, 32) + be_bytes(chain, 32) + be_bytes(
                    nonce,
                    32,
                ) + be_bytes(version, 32),
            },
        ),
        _ => Err(ApduError::MalformedNumber),
    }
}

/// Reads `text` in the base `radix`, 10 or 16, and appends its 32 bytes to a
/// frame that has room for them.
pub(crate) fn append_text(apdu: &mut Apdu, text: &str, radix: u32) -> (r: Result<(), ApduError>)
    requires
        old(apdu).wf(),
        old(apdu).is_clean(),
        old(apdu).len + 32 <= 255,
        radix == 10 || radix == 16,
    ensures
        final(apdu).wf(),
        final(apdu).is_clean(),
        final(apdu).header == old(apdu).header,
        match uint_text(text.spec_bytes(), radix) {
            Some(v) => r is Ok && final(apdu).len == old(apdu).len + 32 && final(apdu).payload()
                == old(apdu).payload() + be_bytes(v, 32),
            None => r == Err::<(), ApduError>(ApduError::MalformedNumber) && *final(apdu) == *old(
                apdu,
            ),
        },
{
    let parsed = if radix == 16 {
        FieldElement::parse_hex(text)
    } else {
        FieldElement::parse_decimal(text)
    };
    match parsed {
        Ok(fe) => {
            append_felt(apdu, &fe);
            Ok(())
        },
        Err(e) => Err(e),
    }
}

/// The frame of the fields of a transaction.
pub fn tx_metadata_apdu(
    sender_address: &str,
    max_fee: &str,
    chain_id: &str,
    nonce: &str,
    version: &str,
    apdu_header: ApduHeader,
) -> (r: Result<Apdu, ApduError>)
    ensures
        yields(
            r,
            tx_metadata_frame(
                sender_address.spec_bytes(),
                max_fee.spec_bytes(),
                chain_id.spec_bytes(),
                nonce.spec_bytes(),
                version.spec_bytes(),
                apdu_header,
            ),
        ),
{
    let mut apdu = Apdu::new(apdu_header.cla, apdu_header.ins, apdu_header.p1, apdu_header.p2);
    if let Err(e) = append_text(&mut apdu, sender_address, 16) {
        return Err(e);
    }
    if let Err(e) = append_text(&mut apdu, max_fee, 10) {
        return Err(e);
    }
    if let Err(e) = append_text(&mut apdu, chain_id, 16) {
        return Err(e);
    }
    if let Err(e) = append_text(&mut apdu, nonce, 10) {
        return Err(e);
    }
    if let Err(e) = append_text(&mut apdu, version, 10) {
        return Err(e);
    }
    assert(apdu.payload() =~= tx_metadata_frame(
        sender_address.spec_bytes(),
        max_fee.spec_bytes(),
        chain_id.spec_bytes(),
        nonce.spec_bytes(),
        version.spec_bytes(),
        apdu_header,
    )->Ok_0.payload);
    Ok(apdu)
}

/// `n` times the character `0`.
pub open spec fn zero_chars(n: nat) -> Seq<char> {
    Seq::new(n, |i: int| '0')
}

/// A hash text brought to 64 characters: zeros in front until the text has
/// 63 bytes, then one `0` behind it.
pub open spec fn fix_text(hash: Seq<char>) -> Seq<char> {
    zero_chars((63 - encode_utf8(hash).len()) as nat) + hash + seq!['0']
}

/// Brings a hash of at most 63 hexadecimal digits to the 64 characters
/// that the device expects: zeros in front, and one `0` behind.
pub fn fix(hash: &mut String)
    requires
        encode_utf8(old(hash)@).len() <= 63,
    ensures
        final(hash)@ == fix_text(old(hash)@),
{
    let n: usize = hash.as_str().len();
    let mut out = String::new();
    let mut i: usize = n;
    proof {
        reveal_strlit("0");
        assert(out@ =~= zero_chars(0));
    }
    while i < 63
        invariant
            n <= i <= 63,
            "0"@ == seq!['0'],
            out@ == zero_chars((i - n) as nat),
        decreases 63 - i,
    {
        out.append("0");
        i += 1;
        assert(out@ =~= zero_chars((i - n) as nat));
    }
    out.append(hash.as_str());
    out.append("0");
    *hash = out;
}

} // verus!
