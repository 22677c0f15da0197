//! Framing: every message travels behind its length in four bytes, highest byte first.

use crate::bytes;
use vstd::prelude::*;

verus! {

/// The longest payload that a reader accepts.
pub const MAX_PACKET_LEN: u32 = 16777216;

#[derive(Debug)]
pub struct Packet {
    pub payload: Vec<u8>,
}

/// Why no packet could be read.
#[derive(Debug, Clone, Copy, PartialEq, Eq, Structural)]
pub enum FrameError {
    /// The bytes end before the packet does.
    Truncated,
    /// The header announces a payload of this length, over the limit.
    TooLarge(u32),
}

/// A payload behind its length.
pub open spec fn framed(payload: Seq<u8>) -> Seq<u8> {
    bytes::be32(payload.len()) + payload
}

/// The length that a header of four bytes announces.
pub open spec fn announced(header: Seq<u8>) -> nat {
    (header[0] as nat) * 16777216 + (header[1] as nat) * 65536 + (header[2] as nat) * 256 + (
    header[3] as nat)
}

/// The packet at the beginning of `data`.
pub open spec fn unframed(data: Seq<u8>) -> Result<Seq<u8>, FrameError> {
    if data.len() < 4 {
        Err(FrameError::Truncated)
    } else if announced(data) > MAX_PACKET_LEN {
        Err(FrameError::TooLarge(announced(data) as u32))
    } else if data.len() < 4 + announced(data) {
        Err(FrameError::Truncated)
    } else {
        Ok(data.subrange(4, 4 + announced(data) as int))
    }
}

impl Packet {
    /// Puts the length in front of a payload.
    pub fn encapsulate(payload_data: Vec<u8>) -> (r: Vec<u8>)
        ensures
            r@ == framed(payload_data@),
    {
        let n: u64 = payload_data.len() as u64;
        let mut r: Vec<u8> = Vec::new();
        r.push(((n / 16777216) % 256) as u8);
        r.push(((n / 65536) % 256) as u8);
        r.push(((n / 256) % 256) as u8);
        r.push((n % 256) as u8);
        assert(r@ =~= bytes::be32(payload_data@.len()));
        bytes::append_bytes(&mut r, payload_data.as_slice());
        r
    }

    /// The length of the payload that follows a header, or the error of a payload over the limit.
    pub fn payload_length(header: [u8; 4]) -> (r: Result<u32, FrameError>)
        ensures
            match r {
                Ok(n) => n as nat == announced(header@) && n <= MAX_PACKET_LEN,
                Err(e) => announced(header@) > MAX_PACKET_LEN && e == FrameError::TooLarge(
                    announced(header@) as u32,
                ),
            },
    {
        let n: u32 = (header[0] as u32) * 16777216 + (header[1] as u32) * 65536 + (header[2] as u32)
            * 256 + (header[3] as u32);
        if n > MAX_PACKET_LEN {
            Err(FrameError::TooLarge(n))
        } else {
            Ok(n)
        }
    }

    /// Reads the packet at the beginning of `data`; the bytes behind it are left alone.
    pub fn decapsulate(data: &[u8]) -> (r: Result<Packet, FrameError>)
        ensures
            match r {
                Ok(p) => unframed(data@) == Ok::<_, FrameError>(p.payload@),
                Err(e) => unframed(data@) == Err::<Seq<u8>, _>(e),
            },
    {
        if data.len() < 4 {
            return Err(FrameError::Truncated);
        }
        let header: [u8; 4] = [data[0], data[1], data[2], data[3]];
        assert(announced(header@) == announced(data@));
        match Packet::payload_length(header) {
            Err(e) => Err(e),
            Ok(n) => {
                let len: usize = n as usize;
                if data.len() - 4 < len {
                    return Err(FrameError::Truncated);
                }
                Ok(Packet { payload: bytes::copy_range(data, 4, 4 + len) })
            },
        }
    }
}

proof fn lemma_announced(payload: Seq<u8>, rest: Seq<u8>)
    requires
        payload.len() < 0x1_0000_0000,
    ensures
        announced(framed(payload) + rest) == payload.len(),
{
    let n = payload.len();
    let header = framed(payload) + rest;
    assert(header[0] == bytes::be32(n)[0]);
    assert(header[1] == bytes::be32(n)[1]);
    assert(header[2] == bytes::be32(n)[2]);
    assert(header[3] == bytes::be32(n)[3]);
    assert(n / 16777216 < 256);
    assert(n == (n / 16777216) * 16777216 + ((n / 65536) % 256) * 65536 + ((n / 256) % 256) * 256
        + n % 256);
}

/// What was framed is read back, whatever bytes follow on the stream.
pub proof fn law_framing_round_trip(payload: Seq<u8>, rest: Seq<u8>)
    requires
        payload.len() <= MAX_PACKET_LEN,
    ensures
        unframed(framed(payload) + rest) == Ok::<_, FrameError>(payload),
        (framed(payload) + rest).skip((4 + payload.len()) as int) == rest,
{
    lemma_announced(payload, rest);
    let data = framed(payload) + rest;
    assert(data.subrange(4, (4 + payload.len()) as int) =~= payload);
    assert(data.skip((4 + payload.len()) as int) =~= rest);
}

/// A payload over the limit is refused by every reader.
pub proof fn law_oversized_is_refused(payload: Seq<u8>, rest: Seq<u8>)
    requires
        MAX_PACKET_LEN < payload.len() < 0x1_0000_0000,
    ensures
        unframed(framed(payload) + rest) == Err::<Seq<u8>, _>(
            FrameError::TooLarge(payload.len() as u32),
        ),
{
    lemma_announced(payload, rest);
}

} // verus!
