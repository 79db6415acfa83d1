//! Length-delimited framing (the steady-state codec of every stream): each
//! frame is a 4-byte big-endian length prefix followed by that many payload
//! bytes.  Frames longer than 16 MiB are refused on both sides, and the
//! refusal is fatal to the affected stream only.
//!
//! A second, lighter framing carries the initial negotiation record of a
//! stream: a 2-byte big-endian length prefix followed by the record's bytes.

use vstd::prelude::*;

use crate::model::Error;
use crate::wire::{
    push_u16_be, push_u32_be, read_u16_be, read_u32_be, u16_be_bytes, u16_of_be, u32_be_bytes,
    u32_of_be,
};

verus! {

/// The largest payload a steady-state frame may carry: 16 MiB.
pub const MAX_FRAME_LEN: usize = 16777216;

/// The largest payload a handshake frame may carry: what its 16-bit length
/// prefix can express.
pub const MAX_HANDSHAKE_LEN: usize = 65535;

/// The bytes of one steady-state frame around a payload (meaningful when the
/// payload is within the 16 MiB cap).
pub open spec fn frame_bytes(payload: Seq<u8>) -> Seq<u8> {
    u32_be_bytes(payload.len() as u32) + payload
}

/// The bytes of one handshake frame around a payload (meaningful when the
/// payload length fits in 16 bits).
pub open spec fn handshake_bytes(payload: Seq<u8>) -> Seq<u8> {
    u16_be_bytes(payload.len() as u16) + payload
}

/// The message of the error raised for a frame beyond the 16 MiB cap.
pub open spec fn oversize_message() -> Seq<char> {
    "frame exceeds maximum length"@
}

/// The message of the error raised for a handshake record whose length does
/// not fit the 16-bit prefix.
pub open spec fn handshake_oversize_message() -> Seq<char> {
    "handshake record exceeds maximum length"@
}

/// What decoding finds at a position in a byte buffer.
pub enum FrameDecode {
    /// A whole frame: its payload, and the position just past it.
    Frame { payload: Vec<u8>, next: usize },
    /// The buffer ends before the frame does; more bytes are needed.
    Incomplete,
    /// The length prefix exceeds the 16 MiB cap; the stream is poisoned.
    Oversize,
}

/// What decoding a frame at position `start` of `buf` must find, in
/// specification terms.
pub open spec fn frame_decode_spec(buf: Seq<u8>, start: int) -> SpecFrameDecode {
    if start + 4 > buf.len() {
        SpecFrameDecode::Incomplete
    } else {
        let len = u32_of_be(buf[start], buf[start + 1], buf[start + 2], buf[start + 3]);
        if len > MAX_FRAME_LEN {
            SpecFrameDecode::Oversize
        } else if start + 4 + len > buf.len() {
            SpecFrameDecode::Incomplete
        } else {
            SpecFrameDecode::Frame { payload: buf.subrange(start + 4, start + 4 + len), next: start + 4 + len }
        }
    }
}

/// The specification-level counterpart of [`FrameDecode`].
pub enum SpecFrameDecode {
    Frame { payload: Seq<u8>, next: int },
    Incomplete,
    Oversize,
}

/// Wrap a payload in one steady-state frame.  Succeeds exactly on payloads
/// within the 16 MiB cap; anything longer is refused with an oversize error.
pub fn encode_frame(payload: &Vec<u8>) -> (r: Result<Vec<u8>, Error>)
    ensures
        payload@.len() <= MAX_FRAME_LEN ==> (r matches Ok(buf) && buf@ == frame_bytes(payload@)),
        payload@.len() > MAX_FRAME_LEN ==> (r matches Err(e) && e.0@ == oversize_message()),
{
    if payload.len() > MAX_FRAME_LEN {
        return Err(Error(String::from_str("frame exceeds maximum length")));
    }
    let mut out: Vec<u8> = Vec::new();
    push_u32_be(&mut out, payload.len() as u32);
    let mut i: usize = 0;
    while i < payload.len()
        invariant
            i <= payload@.len(),
            payload@.len() <= MAX_FRAME_LEN,
            out@ == u32_be_bytes(payload@.len() as u32) + payload@.subrange(0, i as int),
        decreases payload@.len() - i,
    {
        out.push(payload[i]);
        i = i + 1;
        proof {
            assert(out@ =~= u32_be_bytes(payload@.len() as u32) + payload@.subrange(0, i as int));
        }
    }
    proof {
        assert(out@ =~= frame_bytes(payload@));
    }
    Ok(out)
}

/// Wrap a payload in one handshake frame.  Succeeds exactly on payloads whose
/// length fits the 16-bit prefix.
pub fn encode_handshake_frame(payload: &Vec<u8>) -> (r: Result<Vec<u8>, Error>)
    ensures
        payload@.len() <= MAX_HANDSHAKE_LEN ==> (r matches Ok(buf) && buf@ == handshake_bytes(
            payload@,
        )),
        payload@.len() > MAX_HANDSHAKE_LEN ==> (r matches Err(e) && e.0@
            == handshake_oversize_message()),
{
    if payload.len() > MAX_HANDSHAKE_LEN {
        return Err(Error(String::from_str("handshake record exceeds maximum length")));
    }
    let mut out: Vec<u8> = Vec::new();
    push_u16_be(&mut out, payload.len() as u16);
    let mut i: usize = 0;
    while i < payload.len()
        invariant
            i <= payload@.len(),
            payload@.len() <= MAX_HANDSHAKE_LEN,
            out@ == u16_be_bytes(payload@.len() as u16) + payload@.subrange(0, i as int),
        decreases payload@.len() - i,
    {
        out.push(payload[i]);
        i = i + 1;
        proof {
            assert(out@ =~= u16_be_bytes(payload@.len() as u16) + payload@.subrange(0, i as int));
        }
    }
    proof {
        assert(out@ =~= handshake_bytes(payload@));
    }
    Ok(out)
}

/// Decode one steady-state frame found at position `start` of `buf`.
pub fn decode_frame(buf: &Vec<u8>, start: usize) -> (r: FrameDecode)
    requires
        start <= buf@.len(),
    ensures
        (frame_decode_spec(buf@, start as int) matches SpecFrameDecode::Frame {
            payload,
            next,
        } ==> (r matches FrameDecode::Frame { payload: p, next: n } && p@ == payload && n == next)),
        (frame_decode_spec(buf@, start as int) is Incomplete ==> r is Incomplete),
        (frame_decode_spec(buf@, start as int) is Oversize ==> r is Oversize),
{
    if buf.len() - start < 4 {
        return FrameDecode::Incomplete;
    }
    let len32 = read_u32_be(buf[start], buf[start + 1], buf[start + 2], buf[start + 3]);
    if len32 > MAX_FRAME_LEN as u32 {
        return FrameDecode::Oversize;
    }
    let len = len32 as usize;
    if buf.len() - start - 4 < len {
        return FrameDecode::Incomplete;
    }
    let body_start = start + 4;
    let mut payload: Vec<u8> = Vec::new();
    let mut i: usize = 0;
    while i < len
        invariant
            i <= len,
            body_start == start + 4,
            body_start + len <= buf@.len(),
            buf@.len() <= usize::MAX,
            payload@ == buf@.subrange(body_start as int, body_start + i),
        decreases len - i,
    {
        payload.push(buf[body_start + i]);
        i = i + 1;
        proof {
            assert(payload@ =~= buf@.subrange(body_start as int, body_start + i));
        }
    }
    FrameDecode::Frame { payload, next: body_start + len }
}

/// What decoding finds does not depend on where in the buffer the frame
/// starts: reading at `start` is reading the remaining bytes from their
/// beginning.
pub proof fn lemma_frame_decode_shift(buf: Seq<u8>, start: int)
    requires
        0 <= start <= buf.len(),
    ensures
        frame_decode_spec(buf, start) matches SpecFrameDecode::Frame { payload, next } ==> (
        frame_decode_spec(buf.skip(start), 0) == (SpecFrameDecode::Frame {
            payload,
            next: next - start,
        })),
        (frame_decode_spec(buf, start) is Incomplete <==> frame_decode_spec(buf.skip(start), 0)
            is Incomplete),
        (frame_decode_spec(buf, start) is Oversize <==> frame_decode_spec(buf.skip(start), 0)
            is Oversize),
{
    let rest = buf.skip(start);
    if start + 4 <= buf.len() {
        assert(rest[0] == buf[start]);
        assert(rest[1] == buf[start + 1]);
        assert(rest[2] == buf[start + 2]);
        assert(rest[3] == buf[start + 3]);
        let len = u32_of_be(buf[start], buf[start + 1], buf[start + 2], buf[start + 3]);
        if len <= MAX_FRAME_LEN && start + 4 + len <= buf.len() {
            assert(rest.subrange(4, 4 + len) =~= buf.subrange(start + 4, start + 4 + len));
        }
    }
}

/// What taking a frame out of a [`FrameReader`] yields.
pub enum ReadFrame {
    /// The next whole frame's payload.
    Frame(Vec<u8>),
    /// The buffer ends before the frame does; feed more bytes.
    Incomplete,
    /// The next length prefix exceeds the 16 MiB cap; the stream is
    /// poisoned.
    Oversize,
}

/// The receive half of a stream: bytes arrive in chunks, frames leave
/// whole.  The reader holds what has arrived and not yet been consumed.
pub struct FrameReader {
    buf: Vec<u8>,
    pos: usize,
}

impl FrameReader {
    /// The consumed prefix never runs past what has arrived.
    pub closed spec fn wf(self) -> bool {
        self.pos <= self.buf@.len()
    }

    /// The bytes that have arrived and are not yet consumed.
    pub closed spec fn remaining(self) -> Seq<u8> {
        self.buf@.skip(self.pos as int)
    }

    /// A fresh reader: nothing has arrived.
    pub fn new() -> (r: FrameReader)
        ensures
            r.wf(),
            r.remaining() == Seq::<u8>::empty(),
    {
        let r = FrameReader { buf: Vec::new(), pos: 0 };
        proof {
            assert(r.remaining() =~= Seq::<u8>::empty());
        }
        r
    }

    /// Take in the next chunk the stream delivered.
    pub fn feed(&mut self, bytes: &Vec<u8>)
        requires
            old(self).wf(),
        ensures
            final(self).wf(),
            final(self).remaining() == old(self).remaining() + bytes@,
    {
        let mut i: usize = 0;
        while i < bytes.len()
            invariant
                old(self).wf(),
                i <= bytes@.len(),
                self.pos == old(self).pos,
                self.buf@ == old(self).buf@ + bytes@.subrange(0, i as int),
            decreases bytes@.len() - i,
        {
            self.buf.push(bytes[i]);
            i = i + 1;
            proof {
                assert(self.buf@ =~= old(self).buf@ + bytes@.subrange(0, i as int));
            }
        }
        proof {
            assert(bytes@.subrange(0, bytes@.len() as int) =~= bytes@);
            assert(self.remaining() =~= old(self).remaining() + bytes@);
        }
    }

    /// Take the next whole frame out of what has arrived.  An incomplete
    /// frame waits for more bytes; an oversize prefix poisons the stream
    /// and consumes nothing.
    pub fn next(&mut self) -> (r: ReadFrame)
        requires
            old(self).wf(),
        ensures
            final(self).wf(),
            (frame_decode_spec(old(self).remaining(), 0) matches SpecFrameDecode::Frame {
                payload,
                next,
            } ==> (r matches ReadFrame::Frame(p) && p@ == payload && final(self).remaining()
                == old(self).remaining().skip(next))),
            (frame_decode_spec(old(self).remaining(), 0) is Incomplete ==> (r is Incomplete
                && final(self).remaining() == old(self).remaining())),
            (frame_decode_spec(old(self).remaining(), 0) is Oversize ==> (r is Oversize
                && final(self).remaining() == old(self).remaining())),
    {
        proof {
            lemma_frame_decode_shift(self.buf@, self.pos as int);
        }
        match decode_frame(&self.buf, self.pos) {
            FrameDecode::Frame { payload, next } => {
                let ghost before = self.remaining();
                self.pos = next;
                proof {
                    assert(self.remaining() =~= before.skip(
                        frame_decode_spec(before, 0)->Frame_next,
                    ));
                }
                ReadFrame::Frame(payload)
            },
            FrameDecode::Incomplete => ReadFrame::Incomplete,
            FrameDecode::Oversize => ReadFrame::Oversize,
        }
    }
}

/// A frame's encoding decodes back to its payload, also with trailing bytes
/// (the following frames of the stream) behind it.
pub proof fn lemma_frame_round_trip(payload: Seq<u8>, rest: Seq<u8>)
    requires
        payload.len() <= MAX_FRAME_LEN,
    ensures
        frame_decode_spec(frame_bytes(payload) + rest, 0) == (SpecFrameDecode::Frame {
            payload,
            next: 4 + payload.len() as int,
        }),
{
    let buf = frame_bytes(payload) + rest;
    crate::wire::lemma_u32_be_round_trip(payload.len() as u32);
    assert(buf[0] == u32_be_bytes(payload.len() as u32)[0]);
    assert(buf[1] == u32_be_bytes(payload.len() as u32)[1]);
    assert(buf[2] == u32_be_bytes(payload.len() as u32)[2]);
    assert(buf[3] == u32_be_bytes(payload.len() as u32)[3]);
    assert(buf.subrange(4, 4 + payload.len() as int) =~= payload);
}

/// Decoding refuses any prefix that announces a frame beyond the 16 MiB cap,
/// whatever bytes follow it.
pub proof fn lemma_frame_oversize_refused(len: u32, rest: Seq<u8>)
    requires
        len > MAX_FRAME_LEN,
    ensures
        frame_decode_spec(u32_be_bytes(len) + rest, 0) is Oversize,
{
    let buf = u32_be_bytes(len) + rest;
    crate::wire::lemma_u32_be_round_trip(len);
    assert(buf[0] == u32_be_bytes(len)[0]);
    assert(buf[1] == u32_be_bytes(len)[1]);
    assert(buf[2] == u32_be_bytes(len)[2]);
    assert(buf[3] == u32_be_bytes(len)[3]);
}

} // verus!
