//! The per-stream negotiation handshake: the first record on every new
//! bidirectional stream names the service the stream is for.  The record is
//! MessagePack-encoded and carried under a 16-bit big-endian length prefix;
//! only after it do both sides switch to the steady-state framing.

use vstd::prelude::*;

use crate::framed::{
    encode_handshake_frame, handshake_bytes, handshake_oversize_message, MAX_HANDSHAKE_LEN,
};
use crate::model::{Error, Negotiate};
use crate::wire::u16_of_be;

verus! {

/// The MessagePack encoding of a negotiation record carrying this service
/// name.  The bytes are a function of the name alone.
pub uninterp spec fn negotiate_wire(name: Seq<char>) -> Seq<u8>;

/// Relies on `rmp_serde::to_vec`: the MessagePack encoding of a record is
/// deterministic and depends only on the record's fields; a one-field record
/// encodes as a one-element array around the field.
#[verifier::external_body]
fn negotiate_to_msgpack(n: &Negotiate) -> (r: Vec<u8>)
    ensures
        r@ == negotiate_wire(n.name@),
{
    rmp_serde::to_vec(&(&n.name,)).expect("encoding a string record does not fail")
}

/// Relies on `rmp_serde::from_slice`: decoding inverts encoding, so the
/// bytes `rmp_serde::to_vec` produced for a record decode back to it.  Only
/// buffers within the handshake cap are handed in: the string encoder's
/// length marker holds the byte length as 32 bits, so only below that are
/// the encodings read back exactly; every handshake record is far below it.
#[verifier::external_body]
fn negotiate_from_msgpack(b: &Vec<u8>) -> (r: Option<Negotiate>)
    requires
        b@.len() <= MAX_HANDSHAKE_LEN,
    ensures
        (match r {
            Some(n) => forall|name: Seq<char>|
                b@ == #[trigger] negotiate_wire(name) ==> n.name@ == name,
            None => forall|name: Seq<char>| b@ != #[trigger] negotiate_wire(name),
        }),
{
    match rmp_serde::from_slice::<(String,)>(b) {
        Ok((name,)) => Some(Negotiate { name }),
        Err(_) => None,
    }
}

/// Where a handshake frame starting at `start` of `buf` ends, and the record
/// bytes it carries; nothing, where the buffer ends before the frame does.
pub open spec fn handshake_split_spec(buf: Seq<u8>, start: int) -> Option<(Seq<u8>, int)> {
    if start + 2 > buf.len() {
        None
    } else {
        let len = u16_of_be(buf[start], buf[start + 1]);
        if start + 2 + len > buf.len() {
            None
        } else {
            Some((buf.subrange(start + 2, start + 2 + len), start + 2 + len))
        }
    }
}

/// What reading the handshake at a position in a byte buffer finds.
pub enum NegotiateDecode {
    /// The whole record: the negotiation, and the position just past its
    /// frame, where the steady-state frames begin.
    Record { negotiate: Negotiate, next: usize },
    /// The buffer ends before the frame does; more bytes are needed.
    Incomplete,
    /// The frame is complete but its bytes are not a negotiation record;
    /// the stream is refused.
    Malformed,
}

/// Reads and writes negotiation records at the head of a stream.
pub struct Negotiator;

impl Negotiator {
    /// A fresh negotiator.
    pub fn new() -> (r: Negotiator) {
        Negotiator
    }

    /// The full handshake frame announcing service `n.name`: length prefix
    /// plus record bytes.  Refused only where the record outgrows the 16-bit
    /// prefix.
    pub fn encode(&self, n: &Negotiate) -> (r: Result<Vec<u8>, Error>)
        ensures
            negotiate_wire(n.name@).len() <= MAX_HANDSHAKE_LEN ==> (r matches Ok(buf) && buf@
                == handshake_bytes(negotiate_wire(n.name@))),
            negotiate_wire(n.name@).len() > MAX_HANDSHAKE_LEN ==> (r matches Err(e) && e.0@
                == handshake_oversize_message()),
    {
        let record = negotiate_to_msgpack(n);
        encode_handshake_frame(&record)
    }

    /// Read the handshake frame at position `start` of `buf`.  Whenever the
    /// frame carries the encoding of a negotiation record, that record comes
    /// back, with the position just past the frame.
    pub fn decode(&self, buf: &Vec<u8>, start: usize) -> (r: NegotiateDecode)
        requires
            start <= buf@.len(),
        ensures
            handshake_split_spec(buf@, start as int) is None ==> r is Incomplete,
            (handshake_split_spec(buf@, start as int) matches Some((record, end)) ==> {
                &&& (forall|name: Seq<char>|
                    record == #[trigger] negotiate_wire(name) ==> (
                    r matches NegotiateDecode::Record { negotiate, next } && negotiate.name@
                        == name && next == end))
                &&& (r matches NegotiateDecode::Record { negotiate, next } ==> next == end)
                &&& !(r is Incomplete)
            }),
    {
        if buf.len() - start < 2 {
            return NegotiateDecode::Incomplete;
        }
        let len = crate::wire::read_u16_be(buf[start], buf[start + 1]) as usize;
        if buf.len() - start - 2 < len {
            return NegotiateDecode::Incomplete;
        }
        let body_start = start + 2;
        let mut record: Vec<u8> = Vec::new();
        let mut i: usize = 0;
        while i < len
            invariant
                i <= len,
                body_start == start + 2,
                body_start + len <= buf@.len(),
                buf@.len() <= usize::MAX,
                record@ == buf@.subrange(body_start as int, body_start + i),
            decreases len - i,
        {
            record.push(buf[body_start + i]);
            i = i + 1;
            proof {
                assert(record@ =~= buf@.subrange(body_start as int, body_start + i));
            }
        }
        proof {
            assert(record@ =~= handshake_split_spec(buf@, start as int)->Some_0.0);
        }
        match negotiate_from_msgpack(&record) {
            Some(negotiate) => NegotiateDecode::Record { negotiate, next: body_start + len },
            None => NegotiateDecode::Malformed,
        }
    }
}

/// A handshake frame decodes back to the record it was built from, also with
/// the stream's further traffic behind it: on every stream, exactly one
/// negotiation record precedes all other frames, and reading it consumes
/// exactly the frame.
pub proof fn lemma_handshake_round_trip(record: Seq<u8>, rest: Seq<u8>)
    requires
        record.len() <= MAX_HANDSHAKE_LEN,
    ensures
        handshake_split_spec(handshake_bytes(record) + rest, 0) == Some(
            (record, 2 + record.len() as int),
        ),
{
    let buf = handshake_bytes(record) + rest;
    crate::wire::lemma_u16_be_round_trip(record.len() as u16);
    assert(buf[0] == crate::wire::u16_be_bytes(record.len() as u16)[0]);
    assert(buf[1] == crate::wire::u16_be_bytes(record.len() as u16)[1]);
    assert(buf.subrange(2, 2 + record.len() as int) =~= record);
}

} // verus!
