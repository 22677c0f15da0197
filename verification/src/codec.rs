//! The binary encoding of plain values: integers in a fixed number of bytes, lowest byte first, and
//! byte strings behind their length in eight bytes. The encoding of each value is made and read by
//! `bincode`; records are their fields one after the other.

use crate::bytes;
use vstd::prelude::*;

verus! {

pub open spec fn put_u16(x: u16) -> Seq<u8> {
    bytes::le(x as nat, 2)
}

pub open spec fn put_u32(x: u32) -> Seq<u8> {
    bytes::le(x as nat, 4)
}

pub open spec fn put_u64(x: u64) -> Seq<u8> {
    bytes::le(x as nat, 8)
}

pub open spec fn put_bytes(data: Seq<u8>) -> Seq<u8> {
    bytes::le(data.len(), 8) + data
}

/// The integer at the beginning of `s`, and what follows it.
pub open spec fn get_u16(s: Seq<u8>) -> Option<(u16, Seq<u8>)> {
    if s.len() < 2 {
        None
    } else {
        Some((bytes::from_le(s.take(2)) as u16, s.skip(2)))
    }
}

pub open spec fn get_u32(s: Seq<u8>) -> Option<(u32, Seq<u8>)> {
    if s.len() < 4 {
        None
    } else {
        Some((bytes::from_le(s.take(4)) as u32, s.skip(4)))
    }
}

pub open spec fn get_u64(s: Seq<u8>) -> Option<(u64, Seq<u8>)> {
    if s.len() < 8 {
        None
    } else {
        Some((bytes::from_le(s.take(8)) as u64, s.skip(8)))
    }
}

/// The byte string at the beginning of `s`, and what follows it.
pub open spec fn get_bytes(s: Seq<u8>) -> Option<(Seq<u8>, Seq<u8>)> {
    match get_u64(s) {
        None => None,
        Some((n, rest)) => if rest.len() < n {
            None
        } else {
            Some((rest.take(n as int), rest.skip(n as int)))
        },
    }
}

/// `n` bytes at the beginning of `s`, and what follows them.
pub open spec fn get_raw(s: Seq<u8>, n: nat) -> Option<(Seq<u8>, Seq<u8>)> {
    if s.len() < n {
        None
    } else {
        Some((s.take(n as int), s.skip(n as int)))
    }
}

/// `bincode::serialize` of a `u16`: two bytes, lowest first.
#[verifier::external_body]
fn serialize_u16(x: u16) -> (r: Vec<u8>)
    ensures
        r@ == put_u16(x),
{
    bincode::serialize(&x).unwrap()
}

/// `bincode::serialize` of a `u32`: four bytes, lowest first.
#[verifier::external_body]
fn serialize_u32(x: u32) -> (r: Vec<u8>)
    ensures
        r@ == put_u32(x),
{
    bincode::serialize(&x).unwrap()
}

/// `bincode::serialize` of a `u64`: eight bytes, lowest first.
#[verifier::external_body]
fn serialize_u64(x: u64) -> (r: Vec<u8>)
    ensures
        r@ == put_u64(x),
{
    bincode::serialize(&x).unwrap()
}

/// `bincode::serialize` of a byte slice: its length in eight bytes, lowest first, and the bytes.
#[verifier::external_body]
fn serialize_bytes(data: &[u8]) -> (r: Vec<u8>)
    ensures
        r@ == put_bytes(data@),
{
    bincode::serialize(data).unwrap()
}

/// `bincode::deserialize` of a `u16`: the first two bytes, lowest first; it fails only where there
/// are fewer, and bytes behind them do no harm.
#[verifier::external_body]
fn deserialize_u16(data: &[u8]) -> (r: Option<u16>)
    ensures
        match r {
            Some(x) => data@.len() >= 2 && x as nat == bytes::from_le(data@.take(2)),
            None => data@.len() < 2,
        },
{
    bincode::deserialize(data).ok()
}

/// `bincode::deserialize` of a `u32`: as for a `u16`, with four bytes.
#[verifier::external_body]
fn deserialize_u32(data: &[u8]) -> (r: Option<u32>)
    ensures
        match r {
            Some(x) => data@.len() >= 4 && x as nat == bytes::from_le(data@.take(4)),
            None => data@.len() < 4,
        },
{
    bincode::deserialize(data).ok()
}

/// `bincode::deserialize` of a `u64`: as for a `u16`, with eight bytes.
#[verifier::external_body]
fn deserialize_u64(data: &[u8]) -> (r: Option<u64>)
    ensures
        match r {
            Some(x) => data@.len() >= 8 && x as nat == bytes::from_le(data@.take(8)),
            None => data@.len() < 8,
        },
{
    bincode::deserialize(data).ok()
}

/// `bincode::deserialize` of a `Vec<u8>`: a length in eight bytes, lowest first, and as many bytes;
/// it fails only where there are fewer, and bytes behind them do no harm.
#[verifier::external_body]
fn deserialize_bytes(data: &[u8]) -> (r: Option<Vec<u8>>)
    ensures
        match r {
            Some(v) => get_bytes(data@) matches Some((value, _)) && v@ == value,
            None => get_bytes(data@) is None,
        },
{
    bincode::deserialize(data).ok()
}

/// Appends an encoded integer.
pub fn write_u16(out: &mut Vec<u8>, x: u16)
    ensures
        final(out)@ == old(out)@ + put_u16(x),
{
    let piece = serialize_u16(x);
    bytes::append_bytes(out, piece.as_slice());
}

pub fn write_u32(out: &mut Vec<u8>, x: u32)
    ensures
        final(out)@ == old(out)@ + put_u32(x),
{
    let piece = serialize_u32(x);
    bytes::append_bytes(out, piece.as_slice());
}

pub fn write_u64(out: &mut Vec<u8>, x: u64)
    ensures
        final(out)@ == old(out)@ + put_u64(x),
{
    let piece = serialize_u64(x);
    bytes::append_bytes(out, piece.as_slice());
}

/// Appends an encoded byte string.
pub fn write_bytes(out: &mut Vec<u8>, data: &[u8])
    ensures
        final(out)@ == old(out)@ + put_bytes(data@),
{
    let piece = serialize_bytes(data);
    bytes::append_bytes(out, piece.as_slice());
}

/// What is still to be read of a byte string.
pub struct Reader<'a> {
    pub rest: &'a [u8],
}

impl<'a> View for Reader<'a> {
    type V = Seq<u8>;

    open spec fn view(&self) -> Seq<u8> {
        self.rest@
    }
}

impl<'a> Reader<'a> {
    pub fn new(data: &'a [u8]) -> (r: Reader<'a>)
        ensures
            r@ == data@,
    {
        Reader { rest: data }
    }

    fn advance(&mut self, n: usize)
        requires
            n <= old(self)@.len(),
        ensures
            final(self)@ == old(self)@.skip(n as int),
    {
        let rest = self.rest;
        let len: usize = rest.len();
        self.rest = vstd::slice::slice_subrange(rest, n, len);
        assert(self@ =~= old(self)@.skip(n as int));
    }

    pub fn read_u16(&mut self) -> (r: Option<u16>)
        ensures
            match get_u16(old(self)@) {
                Some((x, rest)) => r == Some(x) && final(self)@ == rest,
                None => r is None,
            },
    {
        let x = deserialize_u16(self.rest)?;
        self.advance(2);
        Some(x)
    }

    pub fn read_u32(&mut self) -> (r: Option<u32>)
        ensures
            match get_u32(old(self)@) {
                Some((x, rest)) => r == Some(x) && final(self)@ == rest,
                None => r is None,
            },
    {
        let x = deserialize_u32(self.rest)?;
        self.advance(4);
        Some(x)
    }

    pub fn read_u64(&mut self) -> (r: Option<u64>)
        ensures
            match get_u64(old(self)@) {
                Some((x, rest)) => r == Some(x) && final(self)@ == rest,
                None => r is None,
            },
    {
        let x = deserialize_u64(self.rest)?;
        self.advance(8);
        Some(x)
    }

    pub fn read_bytes(&mut self) -> (r: Option<Vec<u8>>)
        ensures
            match get_bytes(old(self)@) {
                Some((data, rest)) => r matches Some(v) && v@ == data && final(self)@ == rest,
                None => r is None,
            },
    {
        let v = deserialize_bytes(self.rest)?;
        let n: usize = v.len();
        self.advance(8);
        self.advance(n);
        Some(v)
    }

    /// Reads `n` bytes as they are.
    pub fn read_raw(&mut self, n: usize) -> (r: Option<Vec<u8>>)
        ensures
            match get_raw(old(self)@, n as nat) {
                Some((data, rest)) => r matches Some(v) && v@ == data && final(self)@ == rest,
                None => r is None,
            },
    {
        if self.rest.len() < n {
            return None;
        }
        let v = bytes::copy_range(self.rest, 0, n);
        assert(v@ =~= old(self)@.take(n as int));
        self.advance(n);
        Some(v)
    }
}

pub proof fn lemma_u16_round_trip(x: u16, rest: Seq<u8>)
    ensures
        get_u16(put_u16(x) + rest) == Some((x, rest)),
{
    bytes::lemma_byte_spans();
    bytes::lemma_le_len(x as nat, 2);
    bytes::lemma_from_le_of_le(x as nat, 2);
    assert((put_u16(x) + rest).take(2) =~= put_u16(x));
    assert((put_u16(x) + rest).skip(2) =~= rest);
}

pub proof fn lemma_u32_round_trip(x: u32, rest: Seq<u8>)
    ensures
        get_u32(put_u32(x) + rest) == Some((x, rest)),
{
    bytes::lemma_byte_spans();
    bytes::lemma_le_len(x as nat, 4);
    bytes::lemma_from_le_of_le(x as nat, 4);
    assert((put_u32(x) + rest).take(4) =~= put_u32(x));
    assert((put_u32(x) + rest).skip(4) =~= rest);
}

pub proof fn lemma_u64_round_trip(x: u64, rest: Seq<u8>)
    ensures
        get_u64(put_u64(x) + rest) == Some((x, rest)),
{
    bytes::lemma_byte_spans();
    bytes::lemma_le_len(x as nat, 8);
    bytes::lemma_from_le_of_le(x as nat, 8);
    assert((put_u64(x) + rest).take(8) =~= put_u64(x));
    assert((put_u64(x) + rest).skip(8) =~= rest);
}

pub proof fn lemma_bytes_round_trip(data: Seq<u8>, rest: Seq<u8>)
    requires
        data.len() <= u64::MAX,
    ensures
        get_bytes(put_bytes(data) + rest) == Some((data, rest)),
{
    let n = data.len() as u64;
    lemma_u64_round_trip(n, data + rest);
    assert(put_bytes(data) + rest =~= put_u64(n) + (data + rest));
    assert((data + rest).take(n as int) =~= data);
    assert((data + rest).skip(n as int) =~= rest);
}

pub proof fn lemma_raw_round_trip(data: Seq<u8>, rest: Seq<u8>)
    ensures
        get_raw(data + rest, data.len()) == Some((data, rest)),
{
    assert((data + rest).take(data.len() as int) =~= data);
    assert((data + rest).skip(data.len() as int) =~= rest);
}

} // verus!
