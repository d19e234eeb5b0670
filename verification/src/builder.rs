//! The frames of each instruction.

use crate::apdu::{Apdu, ApduHeader, Frame};
use crate::ascii::{DIGIT_0, LOWER_X};
use crate::bigendian::{be_bytes, lemma_be_bytes_len};
use crate::builder::builder_internal::{
    append_text, fix, fix_text, path_frame, set_derivation_path_apdu, tx_metadata_apdu,
    tx_metadata_frame, zero_chars,
};
use crate::text::{
    lemma_ascii_prefix_boundary, lemma_encode_utf8_concat, lemma_encode_utf8_repeat,
};
use crate::types::{felt_text, has_hex_prefix, Call, FieldElement, Ins, Tx};
use crate::u256::uint_text;
use vstd::prelude::*;
use vstd::string::{StringExecFns, StringSliceAdditionalSpecFns};
use vstd::utf8::{encode_utf8, encode_utf8_valid_utf8};

pub mod builder_internal;

verus! {

/// Why a request could not be turned into frames.
#[derive(Clone, Copy, Debug, PartialEq, Eq, Structural)]
pub enum ApduError {
    /// The builder failed: a frame overflowed, or an index did not fit its
    /// header byte.
    InternalError,
    /// A text is no number of its base, or the number does not fit 256 bits.
    MalformedNumber,
    /// A segment of a derivation path is no number, or does not fit 32 bits.
    InvalidPathSegment,
    /// A frame could not take more bytes; it had this many bytes free.
    CapacityExceeded(usize),
    /// A hash has more than 63 hexadecimal digits.
    HashShapeInvariantViolation,
}

/// The most field elements that one frame carries.
pub const FELTS_PER_FRAME: usize = 7;

/// The header byte `p1` of a calldata frame.
pub const P1_CALLDATA: u8 = 2;

/// Every text of `items` writes a number.
pub open spec fn felts_ok(items: Seq<String>) -> bool {
    forall|i: int| 0 <= i < items.len() ==> felt_text(encode_utf8(#[trigger] items[i]@)) is Some
}

/// The numbers that the texts of `items` write, in order.
pub open spec fn felts_values(items: Seq<String>) -> Seq<nat> {
    Seq::new(items.len(), |i: int| felt_text(encode_utf8(items[i]@))->Some_0)
}

/// The payload that carries `values`: 32 bytes each, in order.
pub open spec fn felts_payload(values: Seq<nat>) -> Seq<u8>
    decreases values.len(),
{
    if values.len() == 0 {
        Seq::empty()
    } else {
        felts_payload(values.drop_last()) + be_bytes(values.last(), 32)
    }
}

/// How many frames `n` field elements take: `n / 7`, rounded up.
pub open spec fn chunk_count(n: nat) -> nat {
    ((n + FELTS_PER_FRAME - 1) / FELTS_PER_FRAME as int) as nat
}

/// The field elements of the frame number `k`: seven from the place `7 * k`
/// on, or those that are left.
pub open spec fn chunk(values: Seq<nat>, k: int) -> Seq<nat> {
    let from = FELTS_PER_FRAME * k;
    values.subrange(
        from,
        if from + FELTS_PER_FRAME <= values.len() {
            from + FELTS_PER_FRAME
        } else {
            values.len() as int
        },
    )
}

/// The place of frame `k` in a stream of `count` frames: 0 for the only
/// frame, 1 for the first of several, 3 for the last, 2 for those between.
pub open spec fn stream_role(k: int, count: int) -> u8 {
    if count == 1 {
        0
    } else if k == 0 {
        1
    } else if k == count - 1 {
        3
    } else {
        2
    }
}

/// The header of frame `k` in a stream of `count` frames: the class and
/// instruction given, and the place of the frame in `p2`.
pub open spec fn stream_header(k: int, count: int, cla: u8, ins: Ins) -> ApduHeader {
    ApduHeader { cla, ins: ins.spec_code(), p1: P1_CALLDATA, p2: stream_role(k, count) }
}

/// The frames that stream `values`: seven to a frame, each frame marked
/// with its place in the stream.
pub open spec fn stream_frames(values: Seq<nat>, cla: u8, ins: Ins) -> Seq<Frame> {
    Seq::new(
        chunk_count(values.len()),
        |k: int|
            Frame {
                header: stream_header(k, chunk_count(values.len()) as int, cla, ins),
                payload: felts_payload(chunk(values, k)),
            },
    )
}

/// Each of `apdus` holds the frame of `frames` at its place.
pub open spec fn hold_all(apdus: Seq<Apdu>, frames: Seq<Frame>) -> bool {
    &&& apdus.len() == frames.len()
    &&& forall|k: int| 0 <= k < apdus.len() ==> (#[trigger] apdus[k]).holds(frames[k])
}

/// `r` is what `want` asks for: the frame, held cleanly, or the error.
pub open spec fn yields(r: Result<Apdu, ApduError>, want: Result<Frame, ApduError>) -> bool {
    match want {
        Ok(frame) => r is Ok && r->Ok_0.holds(frame),
        Err(e) => r == Err::<Apdu, ApduError>(e),
    }
}

/// `r` is what `want` asks for: the frames in order, each held cleanly, or
/// the error.
pub open spec fn yields_all(
    r: Result<Vec<Apdu>, ApduError>,
    want: Result<Seq<Frame>, ApduError>,
) -> bool {
    match want {
        Ok(frames) => r is Ok && hold_all(r->Ok_0@, frames),
        Err(e) => r == Err::<Vec<Apdu>, ApduError>(e),
    }
}

/// The frames that carry `values` seven to a frame, the header byte `p2`
/// counting the frames from zero.
pub open spec fn indexed_frames(values: Seq<nat>, cla: u8, ins: Ins) -> Seq<Frame> {
    Seq::new(
        chunk_count(values.len()),
        |k: int|
            Frame {
                header: ApduHeader { cla, ins: ins.spec_code(), p1: P1_CALLDATA, p2: k as u8 },
                payload: felts_payload(chunk(values, k)),
            },
    )
}

/// The calldata frames of a call under the scheme that counts them. The
/// count has to fit the header byte: there may be 256 frames at most.
pub open spec fn calldata_indexed(calldata: Seq<String>, cla: u8, ins: Ins) -> Result<
    Seq<Frame>,
    ApduError,
> {
    if !felts_ok(calldata) {
        Err(ApduError::MalformedNumber)
    } else if chunk_count(calldata.len()) > 256 {
        Err(ApduError::InternalError)
    } else {
        Ok(indexed_frames(felts_values(calldata), cla, ins))
    }
}

/// The calldata frames of a call under the scheme that streams them.
pub open spec fn calldata_streamed(calldata: Seq<String>, cla: u8, ins: Ins) -> Result<
    Seq<Frame>,
    ApduError,
> {
    if !felts_ok(calldata) {
        Err(ApduError::MalformedNumber)
    } else {
        Ok(stream_frames(felts_values(calldata), cla, ins))
    }
}

/// What an instruction reports where one of its frames failed: an overflow
/// of a frame is a failure of the builder, any other error stays.
pub open spec fn builder_error(e: ApduError) -> ApduError {
    match e {
        ApduError::CapacityExceeded(_) => ApduError::InternalError,
        _ => e,
    }
}

/// What an instruction reports where one of its frames failed.
pub fn to_builder_error(e: ApduError) -> (r: ApduError)
    ensures
        r == builder_error(e),
{
    match e {
        ApduError::CapacityExceeded(_) => ApduError::InternalError,
        _ => e,
    }
}

/// The payload of `values` has 32 bytes for each.
pub proof fn lemma_felts_payload_len(values: Seq<nat>)
    ensures
        felts_payload(values).len() == 32 * values.len(),
    decreases values.len(),
{
    if values.len() > 0 {
        lemma_felts_payload_len(values.drop_last());
        lemma_be_bytes_len(values.last(), 32);
    }
}

/// In the payload of `values`, the 32 bytes at the place `i` are those of
/// the value number `i`.
pub proof fn lemma_felts_payload_at(values: Seq<nat>, i: int)
    requires
        0 <= i < values.len(),
    ensures
        felts_payload(values).subrange(32 * i, 32 * i + 32) == be_bytes(values[i], 32),
    decreases values.len(),
{
    let head = felts_payload(values.drop_last());
    let tail = be_bytes(values.last(), 32);
    lemma_felts_payload_len(values.drop_last());
    lemma_be_bytes_len(values.last(), 32);
    if i == values.len() - 1 {
        assert((head + tail).subrange(32 * i, 32 * i + 32) =~= tail);
    } else {
        lemma_felts_payload_at(values.drop_last(), i);
        assert((head + tail).subrange(32 * i, 32 * i + 32) =~= head.subrange(32 * i, 32 * i + 32));
    }
}

/// Splitting into frames loses nothing and keeps the order: the value
/// number `j` stands in the frame number `j / 7`, whole, at the place
/// `j % 7`. No frame carries more than seven values, and so none more than
/// 224 bytes.
pub proof fn lemma_chunking(values: Seq<nat>, j: int)
    requires
        0 <= j < values.len(),
    ensures
        j / 7 < chunk_count(values.len()),
        j % 7 < chunk(values, j / 7).len() <= 7,
        chunk(values, j / 7)[j % 7] == values[j],
        felts_payload(chunk(values, j / 7)).len() == 32 * chunk(values, j / 7).len(),
        felts_payload(chunk(values, j / 7)).subrange(32 * (j % 7), 32 * (j % 7) + 32) == be_bytes(
            values[j],
            32,
        ),
{
    let part = chunk(values, j / 7);
    lemma_felts_payload_len(part);
    lemma_felts_payload_at(part, j % 7);
}

/// Reads every text of `items` as a call argument.
pub fn parse_felts(items: &Vec<String>) -> (r: Result<Vec<FieldElement>, ApduError>)
    ensures
        felts_ok(items@) ==> r is Ok && r->Ok_0@.len() == items@.len() && forall|i: int|
            0 <= i < items@.len() ==> (#[trigger] r->Ok_0@[i])@ == felts_values(items@)[i],
        !felts_ok(items@) ==> r == Err::<Vec<FieldElement>, ApduError>(
            ApduError::MalformedNumber,
        ),
{
    let mut felts: Vec<FieldElement> = Vec::new();
    let mut i: usize = 0;
    while i < items.len()
        invariant
            i <= items@.len(),
            felts@.len() == i,
            forall|j: int| 0 <= j < i ==> felt_text(encode_utf8(#[trigger] items@[j]@)) is Some,
            forall|j: int| 0 <= j < i ==> (#[trigger] felts@[j])@ == felts_values(items@)[j],
        decreases items@.len() - i,
    {
        match FieldElement::parse(items[i].as_str()) {
            Ok(fe) => {
                felts.push(fe);
            },
            Err(_) => {
                return Err(ApduError::MalformedNumber);
            },
        }
        i += 1;
    }
    Ok(felts)
}

/// Appends the 32 bytes of `fe` to a frame that has room for them.
pub(crate) fn append_felt(apdu: &mut Apdu, fe: &FieldElement)
    requires
        old(apdu).wf(),
        old(apdu).is_clean(),
        old(apdu).len + 32 <= 255,
    ensures
        final(apdu).wf(),
        final(apdu).is_clean(),
        final(apdu).header == old(apdu).header,
        final(apdu).len == old(apdu).len + 32,
        final(apdu).payload() == old(apdu).payload() + be_bytes(fe@, 32),
{
    let bytes: [u8; 32] = fe.encode();
    proof {
        lemma_be_bytes_len(fe@, 32);
    }
    apdu.append(bytes.as_slice()).unwrap();
}

/// One frame with the field elements `felts[from..to]`.
fn felts_frame(felts: &Vec<FieldElement>, from: usize, to: usize, header: ApduHeader) -> (apdu:
    Apdu)
    requires
        from <= to <= felts@.len(),
        to - from <= FELTS_PER_FRAME,
    ensures
        apdu.holds(
            Frame {
                header,
                payload: felts_payload(
                    Seq::new(felts@.len(), |i: int| felts@[i]@).subrange(from as int, to as int),
                ),
            },
        ),
{
    let ghost values = Seq::new(felts@.len(), |i: int| felts@[i]@);
    let mut apdu = Apdu::new(header.cla, header.ins, header.p1, header.p2);
    let mut j: usize = from;
    assert(values.subrange(from as int, from as int) =~= Seq::<nat>::empty());
    while j < to
        invariant
            from <= j <= to <= felts@.len(),
            to - from <= FELTS_PER_FRAME,
            values == Seq::new(felts@.len(), |i: int| felts@[i]@),
            apdu.wf(),
            apdu.is_clean(),
            apdu.header == header,
            apdu.len == 32 * (j - from),
            apdu.payload() == felts_payload(values.subrange(from as int, j as int)),
        decreases to - j,
    {
        append_felt(&mut apdu, &felts[j]);
        proof {
            let next = values.subrange(from as int, j + 1);
            assert(next.drop_last() =~= values.subrange(from as int, j as int));
            assert(next.last() == felts@[j as int]@);
        }
        j += 1;
    }
    apdu
}

/// The calldata of one call as a stream of frames: seven arguments to a
/// frame, the header byte `p2` telling the place of each frame in the
/// stream. A call without arguments gives no frame.
pub fn call_to_apdu(call: &Call, cla: u8, ins: Ins) -> (r: Result<Vec<Apdu>, ApduError>)
    ensures
        yields_all(r, calldata_streamed(call.calldata@, cla, ins)),
{
    let felts = match parse_felts(&call.calldata) {
        Ok(felts) => felts,
        Err(e) => {
            return Err(e);
        },
    };
    let ghost values = felts_values(call.calldata@);
    assert(Seq::new(felts@.len(), |i: int| felts@[i]@) =~= values);
    let n: usize = felts.len();
    let count: usize = n / FELTS_PER_FRAME + (if n % FELTS_PER_FRAME == 0 {
        0usize
    } else {
        1usize
    });
    assert(count == chunk_count(n as nat));
    let mut apdu_list: Vec<Apdu> = Vec::new();
    let mut k: usize = 0;
    while k < count
        invariant
            k <= count,
            n == felts@.len(),
            count == chunk_count(n as nat),
            values == felts_values(call.calldata@),
            Seq::new(felts@.len(), |i: int| felts@[i]@) == values,
            values.len() == n,
            apdu_list@.len() == k,
            forall|i: int|
                0 <= i < k ==> (#[trigger] apdu_list@[i]).holds(
                    stream_frames(values, cla, ins)[i],
                ),
        decreases count - k,
    {
        let from: usize = FELTS_PER_FRAME * k;
        let to: usize = if n - from >= FELTS_PER_FRAME { from + FELTS_PER_FRAME } else { n };
        let role: u8 = if count == 1 {
            0
        } else if k == 0 {
            1
        } else if k == count - 1 {
            3
        } else {
            2
        };
        let header = ApduHeader { cla, ins: ins.code(), p1: P1_CALLDATA, p2: role };
        let apdu = felts_frame(&felts, from, to, header);
        assert(values.subrange(from as int, to as int) == chunk(values, k as int));
        apdu_list.push(apdu);
        k += 1;
    }
    Ok(apdu_list)
}

/// The calldata of one call in frames that are counted: seven arguments to
/// a frame, the header byte `p2` holding the number of the frame, from
/// zero. A call without arguments gives no frame.
pub fn calldata_apdus(calldata: &Vec<String>, cla: u8, ins: Ins) -> (r: Result<
    Vec<Apdu>,
    ApduError,
>)
    ensures
        yields_all(r, calldata_indexed(calldata@, cla, ins)),
{
    let felts = match parse_felts(calldata) {
        Ok(felts) => felts,
        Err(e) => {
            return Err(e);
        },
    };
    let ghost values = felts_values(calldata@);
    assert(Seq::new(felts@.len(), |i: int| felts@[i]@) =~= values);
    let n: usize = felts.len();
    let count: usize = n / FELTS_PER_FRAME + (if n % FELTS_PER_FRAME == 0 {
        0usize
    } else {
        1usize
    });
    assert(count == chunk_count(n as nat));
    if count > 256 {
        return Err(ApduError::InternalError);
    }
    let mut apdu_list: Vec<Apdu> = Vec::new();
    let mut k: usize = 0;
    while k < count
        invariant
            k <= count <= 256,
            n == felts@.len(),
            count == chunk_count(n as nat),
            Seq::new(felts@.len(), |i: int| felts@[i]@) == values,
            values.len() == n,
            apdu_list@.len() == k,
            forall|i: int|
                0 <= i < k ==> (#[trigger] apdu_list@[i]).holds(
                    indexed_frames(values, cla, ins)[i],
                ),
        decreases count - k,
    {
        let from: usize = FELTS_PER_FRAME * k;
        let to: usize = if n - from >= FELTS_PER_FRAME { from + FELTS_PER_FRAME } else { n };
        let header = ApduHeader { cla, ins: ins.code(), p1: P1_CALLDATA, p2: k as u8 };
        let apdu = felts_frame(&felts, from, to, header);
        assert(values.subrange(from as int, to as int) == chunk(values, k as int));
        apdu_list.push(apdu);
        k += 1;
    }
    Ok(apdu_list)
}

/// The frame that carries a derivation path, under the header of the given
/// class, instruction and `p1`.
pub fn derivation_path_to_apdu(path: &str, cla: u8, ins: Ins, sub_ins: u8) -> (r: Result<
    Apdu,
    ApduError,
>)
    ensures
        yields(
            r,
            path_frame(
                path.spec_bytes(),
                ApduHeader { cla, ins: ins.spec_code(), p1: sub_ins, p2: 0 },
            ),
        ),
{
    set_derivation_path_apdu(path, ApduHeader { cla, ins: ins.code(), p1: sub_ins, p2: 0 })
}

/// The frame of the fields of the transaction `tx`: sender, fee, chain,
/// nonce and version, 32 bytes each.
pub fn txinfo_to_apdu(tx: &Tx, cla: u8, ins: Ins, sub_ins: u8) -> (r: Result<Apdu, ApduError>)
    ensures
        yields(
            r,
            tx_metadata_frame(
                encode_utf8(tx.sender_address@),
                encode_utf8(tx.max_fee@),
                encode_utf8(tx.chain_id@),
                encode_utf8(tx.nonce@),
                encode_utf8(tx.version@),
                ApduHeader { cla, ins: ins.spec_code(), p1: sub_ins, p2: 0 },
            ),
        ),
{
    tx_metadata_apdu(
        tx.sender_address.as_str(),
        tx.max_fee.as_str(),
        tx.chain_id.as_str(),
        tx.nonce.as_str(),
        tx.version.as_str(),
        ApduHeader { cla, ins: ins.code(), p1: sub_ins, p2: 0 },
    )
}

/// `s` without any `0x` at its start, however many there are.
pub open spec fn trim_hex_prefixes(s: Seq<u8>) -> Seq<u8>
    decreases s.len(),
{
    if has_hex_prefix(s) {
        trim_hex_prefixes(s.skip(2))
    } else {
        s
    }
}

/// The bytes of a hash text brought to 64 characters: zeros in front until
/// there are 63 bytes, then one `0` behind.
pub open spec fn fix_bytes(hash: Seq<u8>) -> Seq<u8> {
    Seq::new((63 - hash.len()) as nat, |i: int| DIGIT_0) + hash + seq![DIGIT_0]
}

/// The frame that carries a hash. The text loses every `0x` at its start
/// and may then have 63 bytes at most; it is brought to 64 characters and
/// read as a hexadecimal number.
pub open spec fn hash_frame(hash: Seq<u8>, header: ApduHeader) -> Result<Frame, ApduError> {
    let digits = trim_hex_prefixes(hash);
    if digits.len() > 63 {
        Err(ApduError::HashShapeInvariantViolation)
    } else {
        match uint_text(fix_bytes(digits), 16) {
            Some(v) => Ok(Frame { header, payload: be_bytes(v, 32) }),
            None => Err(ApduError::MalformedNumber),
        }
    }
}

/// The bytes of a fixed text are the fixed bytes of the text.
pub proof fn lemma_fix_bytes(hash: Seq<char>)
    requires
        encode_utf8(hash).len() <= 63,
    ensures
        encode_utf8(fix_text(hash)) == fix_bytes(encode_utf8(hash)),
{
    let n = (63 - encode_utf8(hash).len()) as nat;
    let last = seq!['0'];
    lemma_encode_utf8_concat(zero_chars(n) + hash, last);
    lemma_encode_utf8_concat(zero_chars(n), hash);
    lemma_encode_utf8_repeat('0', n);
    lemma_encode_utf8_repeat('0', 1);
    assert(last =~= Seq::new(1, |i: int| '0'));
    assert(Seq::new(1, |i: int| '0' as u8) =~= seq![DIGIT_0]);
    assert(Seq::new(n, |i: int| '0' as u8) =~= Seq::new(n, |i: int| DIGIT_0));
}

/// The frame that carries a hash to sign. The header byte `p2` tells the
/// device whether to show the hash.
pub fn pedersenhash_to_apdu(hash: &str, cla: u8, ins: Ins, sub_ins: u8, show_hash: bool) -> (r:
    Result<Apdu, ApduError>)
    ensures
        yields(
            r,
            hash_frame(
                hash.spec_bytes(),
                ApduHeader {
                    cla,
                    ins: ins.spec_code(),
                    p1: sub_ins,
                    p2: if show_hash {
                        1
                    } else {
                        0
                    },
                },
            ),
        ),
{
    let bytes = hash.as_bytes();
    let mut k: usize = 0;
    assert(bytes@.skip(0) =~= bytes@);
    while bytes.len() - k >= 2 && bytes[k] == DIGIT_0 && bytes[k + 1] == LOWER_X
        invariant
            k <= bytes@.len(),
            trim_hex_prefixes(bytes@) == trim_hex_prefixes(bytes@.skip(k as int)),
            forall|j: int| 0 <= j < k ==> bytes@[j] < 0x80,
        decreases bytes@.len() - k,
    {
        assert(bytes@.skip(k as int).skip(2) =~= bytes@.skip(k + 2));
        k += 2;
    }
    proof {
        encode_utf8_valid_utf8(hash@);
        lemma_ascii_prefix_boundary(bytes@, k as int);
    }
    let (_, digits) = hash.split_at(k);
    assert(digits.spec_bytes() =~= trim_hex_prefixes(bytes@));
    if digits.len() > 63 {
        return Err(ApduError::HashShapeInvariantViolation);
    }
    let mut fixed = String::from_str(digits);
    fix(&mut fixed);
    proof {
        lemma_fix_bytes(digits@);
    }
    let p2: u8 = if show_hash { 1 } else { 0 };
    let mut apdu = Apdu::new(cla, ins.code(), sub_ins, p2);
    if let Err(e) = append_text(&mut apdu, fixed.as_str(), 16) {
        return Err(e);
    }
    assert(apdu.payload() =~= be_bytes(uint_text(fix_bytes(digits.spec_bytes()), 16)->Some_0, 32));
    Ok(apdu)
}

} // verus!
