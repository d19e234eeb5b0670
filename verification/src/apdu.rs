//! The frame: a four-byte header and a length-prefixed payload of at most
//! 255 bytes.

use crate::hex::{hex_string, hex_text};
use vstd::prelude::*;

verus! {

/// The most bytes that the payload of one frame can hold.
pub const MAX_APDU_DATA_SIZE: usize = 255;

/// The four header bytes of a frame.
#[derive(Clone, Copy, Debug, PartialEq, Eq, Structural)]
pub struct ApduHeader {
    pub cla: u8,
    pub ins: u8,
    pub p1: u8,
    pub p2: u8,
}

/// A frame: header, number of payload bytes written, and the payload buffer.
#[derive(Clone, Copy, Debug)]
pub struct Apdu {
    pub header: ApduHeader,
    pub len: usize,
    pub data: [u8; 255],
}

/// What a frame says on the wire: its header and the bytes written so far.
pub ghost struct Frame {
    pub header: ApduHeader,
    pub payload: Seq<u8>,
}

impl Frame {
    /// The bytes of the frame in the order of the wire: class, instruction,
    /// `p1`, `p2`, the length of the payload, the payload.
    pub open spec fn wire(self) -> Seq<u8> {
        seq![
            self.header.cla,
            self.header.ins,
            self.header.p1,
            self.header.p2,
            self.payload.len() as u8,
        ] + self.payload
    }
}

/// `n` zero bytes.
pub open spec fn zeros(n: nat) -> Seq<u8> {
    Seq::new(n, |i: int| 0u8)
}

impl View for Apdu {
    type V = Frame;

    open spec fn view(&self) -> Frame {
        Frame { header: self.header, payload: self.payload() }
    }
}

impl Apdu {
    /// The length counts bytes of the buffer.
    pub open spec fn wf(&self) -> bool {
        self.len <= MAX_APDU_DATA_SIZE
    }

    /// The bytes written so far.
    pub open spec fn payload(&self) -> Seq<u8> {
        self.data@.subrange(0, self.len as int)
    }

    /// Every byte of the buffer behind the payload is zero.
    pub open spec fn is_clean(&self) -> bool {
        forall|k: int| self.len <= k < MAX_APDU_DATA_SIZE ==> self.data@[k] == 0u8
    }

    /// The frame holds exactly `frame`, and nothing behind the payload.
    pub open spec fn holds(&self, frame: Frame) -> bool {
        &&& self.wf()
        &&& self.is_clean()
        &&& self.len == frame.payload.len()
        &&& self@ == frame
    }

    /// An empty frame with the given header.
    pub fn new(cla: u8, ins: u8, p1: u8, p2: u8) -> (apdu: Apdu)
        ensures
            apdu.holds(Frame { header: ApduHeader { cla, ins, p1, p2 }, payload: Seq::empty() }),
    {
        let apdu = Apdu { header: ApduHeader { cla, ins, p1, p2 }, len: 0, data: [0u8; 255] };
        assert(apdu.payload() =~= Seq::<u8>::empty());
        apdu
    }

    /// Overwrites the whole buffer with zeros. Header and length stay.
    pub fn clear(&mut self)
        ensures
            final(self).header == old(self).header,
            final(self).len == old(self).len,
            final(self).data@ == zeros(255),
    {
        let mut i: usize = 0;
        while i < 255
            invariant
                i <= 255,
                self.header == old(self).header,
                self.len == old(self).len,
                forall|k: int| 0 <= k < i ==> self.data@[k] == 0u8,
            decreases 255 - i,
        {
            self.data[i] = 0;
            i += 1;
        }
        assert(self.data@ =~= zeros(255));
    }

    /// Copies `data` behind the bytes written so far, or refuses and reports
    /// how many bytes are still free. A refused call changes nothing.
    pub fn append(&mut self, data: &[u8]) -> (r: Result<(), usize>)
        requires
            old(self).wf(),
        ensures
            final(self).wf(),
            final(self).header == old(self).header,
            old(self).is_clean() ==> final(self).is_clean(),
            r is Ok ==> final(self).payload() == old(self).payload() + data@,
            old(self).len + data@.len() <= MAX_APDU_DATA_SIZE ==> r == Ok::<(), usize>(())
                && final(self).len == old(self).len + data@.len()
                && final(self).data@ == old(self).data@.subrange(0, old(self).len as int) + data@
                    + old(self).data@.subrange(final(self).len as int, 255),
            old(self).len + data@.len() > MAX_APDU_DATA_SIZE ==> r == Err::<(), usize>(
                (MAX_APDU_DATA_SIZE - old(self).len) as usize,
            ) && *final(self) == *old(self),
    {
        let n: usize = data.len();
        if n <= MAX_APDU_DATA_SIZE - self.len {
            let start: usize = self.len;
            let mut i: usize = 0;
            while i < n
                invariant
                    i <= n,
                    n == data@.len(),
                    start + n <= 255,
                    start == old(self).len,
                    self.len == start,
                    self.header == old(self).header,
                    forall|k: int| 0 <= k < start ==> self.data@[k] == old(self).data@[k],
                    forall|k: int| 0 <= k < i ==> self.data@[start + k] == data@[k],
                    forall|k: int| start + i <= k < 255 ==> self.data@[k] == old(self).data@[k],
                decreases n - i,
            {
                self.data[start + i] = data[i];
                i += 1;
            }
            self.len = start + n;
            assert(self.data@ =~= old(self).data@.subrange(0, old(self).len as int) + data@
                + old(self).data@.subrange(self.len as int, 255));
            assert(self.payload() =~= old(self).payload() + data@);
            Ok(())
        } else {
            Err(MAX_APDU_DATA_SIZE - self.len)
        }
    }

    /// The frame as text: two lowercase hexadecimal digits for each of
    /// class, instruction, `p1`, `p2` and length, then for each byte of the
    /// payload.
    pub fn to_string(&self) -> (s: String)
        requires
            self.wf(),
        ensures
            s@ == hex_text(self@.wire()),
    {
        let mut bytes: Vec<u8> = Vec::new();
        bytes.push(self.header.cla);
        bytes.push(self.header.ins);
        bytes.push(self.header.p1);
        bytes.push(self.header.p2);
        bytes.push(self.len as u8);
        let ghost head = bytes@;
        let mut i: usize = 0;
        while i < self.len
            invariant
                self.wf(),
                i <= self.len,
                bytes@ == head + self.data@.subrange(0, i as int),
            decreases self.len - i,
        {
            bytes.push(self.data[i]);
            assert(bytes@ =~= head + self.data@.subrange(0, i + 1));
            i += 1;
        }
        assert(bytes@ =~= self@.wire());
        hex_string(bytes.as_slice())
    }
}

} // verus!
