//! The instructions: for each, the frames that the device expects, in the
//! order in which they have to be sent.

use crate::apdu::{Apdu, ApduHeader, Frame};
use crate::builder::builder_internal::{
    call_metadata_frame, callarray_len_apdu, callarray_len_frame, callarray_v1_apdu, path_frame,
    set_derivation_path_apdu, total_calldata, tx_metadata_apdu, tx_metadata_frame,
};
use crate::builder::{
    builder_error, calldata_apdus, calldata_indexed, hash_frame, hold_all, pedersenhash_to_apdu,
    to_builder_error, yields_all, ApduError, P1_CALLDATA,
};
use crate::types::{Call, Ins, Tx};
use vstd::prelude::*;
use vstd::string::StringSliceAdditionalSpecFns;
use vstd::utf8::encode_utf8;

verus! {

/// The header byte `p1` of the frame that carries the derivation path.
pub const P1_PATH: u8 = 0;

/// The header byte `p1` of the frame that carries the hash to sign.
pub const P1_HASH: u8 = 1;

/// The header byte `p1` of the frame that carries the fields of a
/// transaction.
pub const P1_TX_METADATA: u8 = 1;

/// The header byte `p1` of the frame that announces the calls.
pub const P1_CALLARRAY_LEN: u8 = 3;

/// The header byte `p1` of the frame that describes one call.
pub const P1_CALL_METADATA: u8 = 4;

/// The header of a frame of the instruction `ins`.
pub open spec fn header_of(cla: u8, ins: Ins, p1: u8, p2: u8) -> ApduHeader {
    ApduHeader { cla, ins: ins.spec_code(), p1, p2 }
}

/// The one frame that asks for the version: a header and no payload.
pub open spec fn get_version_frames(cla: u8) -> Seq<Frame> {
    seq![Frame { header: header_of(cla, Ins::GetVersion, 0, 0), payload: Seq::empty() }]
}

/// The one frame that asks for a public key: the derivation path.
pub open spec fn get_pubkey_frames(path: Seq<u8>, cla: u8) -> Result<Seq<Frame>, ApduError> {
    match path_frame(path, header_of(cla, Ins::GetPubkey, P1_PATH, 0)) {
        Ok(frame) => Ok(seq![frame]),
        Err(e) => Err(builder_error(e)),
    }
}

/// The two frames that ask to sign a hash: the derivation path, then the
/// hash, with the header byte `p2` set to 1 where the device is to show it.
pub open spec fn sign_hash_frames(path: Seq<u8>, hash: Seq<u8>, cla: u8, show_hash: bool) -> Result<
    Seq<Frame>,
    ApduError,
> {
    match path_frame(path, header_of(cla, Ins::SignHash, P1_PATH, 0)) {
        Err(e) => Err(builder_error(e)),
        Ok(first) => match hash_frame(
            hash,
            header_of(
                cla,
                Ins::SignHash,
                P1_HASH,
                if show_hash {
                    1
                } else {
                    0
                },
            ),
        ) {
            Err(e) => Err(builder_error(e)),
            Ok(second) => Ok(seq![first, second]),
        },
    }
}

/// The frames of the call number `index`: the frame that describes it,
/// marked with `index`, then its calldata frames. `offset` is the number
/// of arguments of the calls before it. The number of the call has to fit
/// the header byte.
#[verifier::opaque]
pub open spec fn call_frames(c: Call, index: nat, offset: nat, cla: u8) -> Result<
    Seq<Frame>,
    ApduError,
> {
    if index > 255 {
        Err(ApduError::InternalError)
    } else {
        match call_metadata_frame(
            c,
            offset,
            header_of(cla, Ins::SignTx, P1_CALL_METADATA, index as u8),
        ) {
            Err(e) => Err(builder_error(e)),
            Ok(first) => match calldata_indexed(c.calldata@, cla, Ins::SignTx) {
                Err(e) => Err(e),
                Ok(rest) => Ok(seq![first] + rest),
            },
        }
    }
}

/// The frames of all calls, in the order of the calls; the error of the
/// first call that fails.
pub open spec fn calls_frames(calls: Seq<Call>, cla: u8) -> Result<Seq<Frame>, ApduError>
    decreases calls.len(),
{
    if calls.len() == 0 {
        Ok(Seq::empty())
    } else {
        match calls_frames(calls.drop_last(), cla) {
            Err(e) => Err(e),
            Ok(before) => match call_frames(
                calls.last(),
                (calls.len() - 1) as nat,
                total_calldata(calls.drop_last()),
                cla,
            ) {
                Err(e) => Err(e),
                Ok(frames) => Ok(before + frames),
            },
        }
    }
}

/// The frames that ask to sign a transaction, with its calls shown on the
/// device: the derivation path; the number of calls and of all arguments;
/// for each call the frame that describes it and its calldata frames; at
/// the end the fields of the transaction.
pub open spec fn sign_tx_frames(path: Seq<u8>, tx: Tx, cla: u8) -> Result<Seq<Frame>, ApduError> {
    match path_frame(path, header_of(cla, Ins::SignTx, P1_PATH, 0)) {
        Err(e) => Err(builder_error(e)),
        Ok(first) => match calls_frames(tx.calls@, cla) {
            Err(e) => Err(e),
            Ok(calls) => match tx_metadata_frame(
                encode_utf8(tx.sender_address@),
                encode_utf8(tx.max_fee@),
                encode_utf8(tx.chain_id@),
                encode_utf8(tx.nonce@),
                encode_utf8(tx.version@),
                header_of(cla, Ins::SignTx, P1_TX_METADATA, 0),
            ) {
                Err(e) => Err(e),
                Ok(last) => Ok(
                    seq![
                        first,
                        callarray_len_frame(
                            tx.calls@,
                            header_of(cla, Ins::SignTx, P1_CALLARRAY_LEN, 0),
                        ),
                    ] + calls + seq![last],
                ),
            },
        },
    }
}

/// Where the first `k` calls fail, all the calls fail in the same way.
pub proof fn lemma_calls_frames_fail(calls: Seq<Call>, k: int, cla: u8)
    requires
        0 <= k <= calls.len(),
        calls_frames(calls.take(k), cla) is Err,
    ensures
        calls_frames(calls, cla) == calls_frames(calls.take(k), cla),
    decreases calls.len() - k,
{
    if k == calls.len() {
        assert(calls.take(k) =~= calls);
    } else {
        assert(calls.drop_last().take(k) =~= calls.take(k));
        lemma_calls_frames_fail(calls.drop_last(), k, cla);
    }
}

/// The frame that asks for the version of the application.
pub fn get_version_apdus(cla: u8) -> (apdus: Vec<Apdu>)
    ensures
        hold_all(apdus@, get_version_frames(cla)),
{
    let mut apdus: Vec<Apdu> = Vec::new();
    apdus.push(Apdu::new(cla, Ins::GetVersion.code(), 0, 0));
    apdus
}

/// The frame that asks for the public key at a derivation path.
pub fn get_pubkey_apdus(path: &str, cla: u8) -> (r: Result<Vec<Apdu>, ApduError>)
    ensures
        yields_all(r, get_pubkey_frames(path.spec_bytes(), cla)),
{
    let header = ApduHeader { cla, ins: Ins::GetPubkey.code(), p1: P1_PATH, p2: 0 };
    match set_derivation_path_apdu(path, header) {
        Ok(apdu) => {
            let mut apdus: Vec<Apdu> = Vec::new();
            apdus.push(apdu);
            Ok(apdus)
        },
        Err(e) => Err(to_builder_error(e)),
    }
}

/// The frames that ask to sign a hash with the key at a derivation path.
pub fn sign_hash_apdus(path: &str, hash: &str, cla: u8, show_hash: bool) -> (r: Result<
    Vec<Apdu>,
    ApduError,
>)
    ensures
        yields_all(r, sign_hash_frames(path.spec_bytes(), hash.spec_bytes(), cla, show_hash)),
{
    let header = ApduHeader { cla, ins: Ins::SignHash.code(), p1: P1_PATH, p2: 0 };
    let first = match set_derivation_path_apdu(path, header) {
        Ok(apdu) => apdu,
        Err(e) => {
            return Err(to_builder_error(e));
        },
    };
    let second = match pedersenhash_to_apdu(hash, cla, Ins::SignHash, P1_HASH, show_hash) {
        Ok(apdu) => apdu,
        Err(e) => {
            return Err(to_builder_error(e));
        },
    };
    let mut apdus: Vec<Apdu> = Vec::new();
    apdus.push(first);
    apdus.push(second);
    Ok(apdus)
}

/// Frames held one list after another are held as one list.
pub proof fn lemma_hold_all_concat(
    a: Seq<Apdu>,
    b: Seq<Apdu>,
    frames_a: Seq<Frame>,
    frames_b: Seq<Frame>,
)
    requires
        hold_all(a, frames_a),
        hold_all(b, frames_b),
    ensures
        hold_all(a + b, frames_a + frames_b),
{
    assert forall|k: int| 0 <= k < (a + b).len() implies (#[trigger] (a + b)[k]).holds(
        (frames_a + frames_b)[k],
    ) by {
        if k < a.len() {
            assert((a + b)[k] == a[k]);
        } else {
            assert((a + b)[k] == b[k - a.len()]);
        }
    }
}

/// The frames of one call of a transaction to sign: the frame that
/// describes the call, then its calldata frames.
pub fn call_apdus(c: &Call, index: usize, offset: u128, cla: u8) -> (r: Result<
    Vec<Apdu>,
    ApduError,
>)
    ensures
        yields_all(r, call_frames(*c, index as nat, offset as nat, cla)),
{
    reveal(call_frames);
    if index > 255 {
        return Err(ApduError::InternalError);
    }
    let header = ApduHeader {
        cla,
        ins: Ins::SignTx.code(),
        p1: P1_CALL_METADATA,
        p2: index as u8,
    };
    let first = match callarray_v1_apdu(c, header, offset) {
        Ok(apdu) => apdu,
        Err(e) => {
            return Err(to_builder_error(e));
        },
    };
    let mut rest = match calldata_apdus(&c.calldata, cla, Ins::SignTx) {
        Ok(rest) => rest,
        Err(e) => {
            return Err(e);
        },
    };
    let ghost chunks = rest@;
    let mut apdus: Vec<Apdu> = Vec::new();
    apdus.push(first);
    apdus.append(&mut rest);
    proof {
        let frames = call_frames(*c, index as nat, offset as nat, cla)->Ok_0;
        assert(apdus@ =~= seq![first] + chunks);
        lemma_hold_all_concat(
            seq![first],
            chunks,
            seq![frames[0]],
            calldata_indexed(c.calldata@, cla, Ins::SignTx)->Ok_0,
        );
    }
    Ok(apdus)
}

/// The frames that ask to sign a transaction with the key at a derivation
/// path, in the order in which the device takes them.
pub fn sign_tx_apdus(path: &str, tx: &Tx, cla: u8) -> (r: Result<Vec<Apdu>, ApduError>)
    ensures
        yields_all(r, sign_tx_frames(path.spec_bytes(), *tx, cla)),
{
    let ins: u8 = Ins::SignTx.code();
    let first = match set_derivation_path_apdu(
        path,
        ApduHeader { cla, ins, p1: P1_PATH, p2: 0 },
    ) {
        Ok(apdu) => apdu,
        Err(e) => {
            return Err(to_builder_error(e));
        },
    };
    let mut apdus: Vec<Apdu> = Vec::new();
    apdus.push(first);
    apdus.push(
        callarray_len_apdu(
            tx.calls.as_slice(),
            ApduHeader { cla, ins, p1: P1_CALLARRAY_LEN, p2: 0 },
        ),
    );
    let ghost head = seq![
        path_frame(path.spec_bytes(), header_of(cla, Ins::SignTx, P1_PATH, 0))->Ok_0,
        callarray_len_frame(tx.calls@, header_of(cla, Ins::SignTx, P1_CALLARRAY_LEN, 0)),
    ];
    let ghost calls = tx.calls@;
    let mut offset: u128 = 0;
    let mut i: usize = 0;
    assert(calls.take(0) =~= Seq::<Call>::empty());
    assert(head + Seq::<Frame>::empty() =~= head);
    while i < tx.calls.len()
        invariant
            i <= calls.len(),
            calls == tx.calls@,
            path_frame(path.spec_bytes(), header_of(cla, Ins::SignTx, P1_PATH, 0)) is Ok,
            calls_frames(calls.take(i as int), cla) is Ok,
            hold_all(apdus@, head + calls_frames(calls.take(i as int), cla)->Ok_0),
            offset == total_calldata(calls.take(i as int)),
            offset <= i * 0xFFFF_FFFF_FFFF_FFFF,
        decreases calls.len() - i,
    {
        let ghost before = calls_frames(calls.take(i as int), cla)->Ok_0;
        proof {
            assert(calls.take(i + 1).drop_last() =~= calls.take(i as int));
            assert(calls.take(i + 1).last() == calls[i as int]);
        }
        let mut next = match call_apdus(&tx.calls[i], i, offset, cla) {
            Ok(next) => next,
            Err(e) => {
                proof {
                    lemma_calls_frames_fail(calls, i + 1, cla);
                }
                return Err(e);
            },
        };
        proof {
            let frames = call_frames(calls[i as int], i as nat, offset as nat, cla)->Ok_0;
            lemma_hold_all_concat(apdus@, next@, head + before, frames);
            assert((head + before) + frames =~= head + (before + frames));
        }
        apdus.append(&mut next);
        offset = offset + tx.calls[i].calldata.len() as u128;
        i += 1;
    }
    assert(calls.take(i as int) =~= calls);
    let last = match tx_metadata_apdu(
        tx.sender_address.as_str(),
        tx.max_fee.as_str(),
        tx.chain_id.as_str(),
        tx.nonce.as_str(),
        tx.version.as_str(),
        ApduHeader { cla, ins, p1: P1_TX_METADATA, p2: 0 },
    ) {
        Ok(apdu) => apdu,
        Err(e) => {
            return Err(e);
        },
    };
    proof {
        let want = sign_tx_frames(path.spec_bytes(), *tx, cla)->Ok_0;
        lemma_hold_all_concat(
            apdus@,
            seq![last],
            head + calls_frames(calls, cla)->Ok_0,
            seq![want.last()],
        );
        assert(apdus@.push(last) =~= apdus@ + seq![last]);
    }
    apdus.push(last);
    Ok(apdus)
}

} // verus!
