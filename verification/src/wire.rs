//! Big-endian integer fields of the wire format: the 16-bit prefix of the
//! negotiation handshake and the 32-bit prefix of length-delimited frames.

use vstd::prelude::*;

verus! {

/// The two big-endian bytes of a 16-bit value.
pub open spec fn u16_be_bytes(x: u16) -> Seq<u8> {
    seq![(x / 256) as u8, (x % 256) as u8]
}

/// The 16-bit value read from two big-endian bytes.
pub open spec fn u16_of_be(b0: u8, b1: u8) -> int {
    b0 * 256 + b1
}

/// The four big-endian bytes of a 32-bit value.
pub open spec fn u32_be_bytes(x: u32) -> Seq<u8> {
    seq![
        (x / 0x1000000) as u8,
        ((x / 0x10000) % 256) as u8,
        ((x / 256) % 256) as u8,
        (x % 256) as u8,
    ]
}

/// The 32-bit value read from four big-endian bytes.
pub open spec fn u32_of_be(b0: u8, b1: u8, b2: u8, b3: u8) -> int {
    b0 * 0x1000000 + b1 * 0x10000 + b2 * 256 + b3
}

/// Reading back the two bytes of a 16-bit value gives the value.
pub proof fn lemma_u16_be_round_trip(x: u16)
    ensures
        u16_of_be(u16_be_bytes(x)[0], u16_be_bytes(x)[1]) == x,
{
}

/// Reading back the four bytes of a 32-bit value gives the value.
pub proof fn lemma_u32_be_round_trip(x: u32)
    ensures
        u32_of_be(
            u32_be_bytes(x)[0],
            u32_be_bytes(x)[1],
            u32_be_bytes(x)[2],
            u32_be_bytes(x)[3],
        ) == x,
{
}

/// Append a 16-bit big-endian field to a byte buffer.
pub fn push_u16_be(out: &mut Vec<u8>, x: u16)
    ensures
        final(out)@ == old(out)@ + u16_be_bytes(x),
{
    out.push((x / 256) as u8);
    out.push((x % 256) as u8);
    proof {
        assert(final(out)@ =~= old(out)@ + u16_be_bytes(x));
    }
}

/// Append a 32-bit big-endian field to a byte buffer.
pub fn push_u32_be(out: &mut Vec<u8>, x: u32)
    ensures
        final(out)@ == old(out)@ + u32_be_bytes(x),
{
    out.push((x / 0x1000000) as u8);
    out.push(((x / 0x10000) % 256) as u8);
    out.push(((x / 256) % 256) as u8);
    out.push((x % 256) as u8);
    proof {
        assert(final(out)@ =~= old(out)@ + u32_be_bytes(x));
    }
}

/// Read a 16-bit big-endian field from two bytes.
pub fn read_u16_be(b0: u8, b1: u8) -> (r: u16)
    ensures
        r == u16_of_be(b0, b1),
{
    (b0 as u16) * 256 + (b1 as u16)
}

/// Read a 32-bit big-endian field from four bytes.
pub fn read_u32_be(b0: u8, b1: u8, b2: u8, b3: u8) -> (r: u32)
    ensures
        r == u32_of_be(b0, b1, b2, b3),
{
    (b0 as u32) * 0x1000000 + (b1 as u32) * 0x10000 + (b2 as u32) * 256 + (b3 as u32)
}

} // verus!
