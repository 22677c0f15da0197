//! Where each field stands on the wire.

use crate::addr::{Ipv6Addr, SocketAddr};
use crate::bytes;
use crate::codec;
use crate::descriptor;
use crate::descriptor::{RelayView, ServiceView};
use crate::packet;
use crate::packet::{FrameError, Packet};
use crate::wire;
use crate::wire::{
    Cell, CellCommand, CellView, Message, MessageView, RelayCell, RelayCellView, RelayCommand,
};
use vstd::prelude::*;

verus! {

/// The number in two bytes of `s` at `i`, lowest byte first.
pub open spec fn low_first_2(s: Seq<u8>, i: int) -> int {
    s[i] + 256 * s[i + 1]
}

/// The number in four bytes of `s` at `i`, lowest byte first.
pub open spec fn low_first_4(s: Seq<u8>, i: int) -> int {
    s[i] + 256 * s[i + 1] + 65536 * s[i + 2] + 16777216 * s[i + 3]
}

proof fn lemma_le_2(x: u16)
    ensures
        codec::put_u16(x).len() == 2,
        low_first_2(codec::put_u16(x), 0) == x,
{
    reveal_with_fuel(bytes::le, 3);
    let s = codec::put_u16(x);
    assert(s[0] == (x as nat % 256) as u8);
    assert(s[1] == ((x as nat / 256) % 256) as u8);
}

proof fn lemma_le_4(x: u32)
    ensures
        codec::put_u32(x).len() == 4,
        low_first_4(codec::put_u32(x), 0) == x,
{
    reveal_with_fuel(bytes::le, 5);
    let s = codec::put_u32(x);
    let n = x as nat;
    assert(s[0] == (n % 256) as u8);
    assert(s[1] == ((n / 256) % 256) as u8);
    assert(s[2] == ((n / 256 / 256) % 256) as u8);
    assert(s[3] == ((n / 256 / 256 / 256) % 256) as u8);
}

/// Where the fields of a relay cell stand: the stream in bytes 0 and 1, `recognized` in 2 and 3, the
/// digest in 4 to 7, the command in 8 to 11, all lowest byte first, the length of the data in the
/// eight bytes behind, and the data from byte 20 on, to the end.
pub proof fn law_relay_cells_on_the_wire(cell: &RelayCell, r: Vec<u8>)
    requires
        call_ensures(RelayCell::encode, (cell,), r),
    ensures
        r@.len() == 20 + cell@.data.len(),
        low_first_2(r@, 0) == cell@.stream_id,
        low_first_2(r@, 2) == cell@.recognized,
        low_first_4(r@, 4) == cell@.digest,
        low_first_4(r@, 8) == cell@.command.spec_index(),
        r@.skip(20) == cell@.data,
{
    let v = cell@;
    lemma_le_2(v.stream_id);
    lemma_le_2(v.recognized);
    lemma_le_4(v.digest);
    lemma_le_4(v.command.spec_index());
    bytes::lemma_le_len(v.data.len(), 8);
    let a = codec::put_u16(v.stream_id);
    let b = codec::put_u16(v.recognized);
    let c = codec::put_u32(v.digest);
    let d = codec::put_u32(v.command.spec_index());
    let s = r@;
    assert(s[0] == a[0] && s[1] == a[1]);
    assert(s[2] == b[0] && s[3] == b[1]);
    assert(s[4] == c[0] && s[5] == c[1] && s[6] == c[2] && s[7] == c[3]);
    assert(s[8] == d[0] && s[9] == d[1] && s[10] == d[2] && s[11] == d[3]);
    assert(s.skip(20) =~= v.data);
}

/// Where the fields of a cell stand: the kind of message, which is 1, in bytes 0 to 3, the circuit in
/// 4 to 7, the command in 8 to 11, the length of the payload in the eight bytes behind, and the
/// payload from byte 20 on, to the end.
pub proof fn law_cells_on_the_wire(message: &Message, cell: Cell, r: Vec<u8>)
    requires
        *message == Message::TorCell(cell),
        call_ensures(Message::encode, (message,), r),
    ensures
        r@.len() == 20 + cell@.payload.len(),
        low_first_4(r@, 0) == 1,
        low_first_4(r@, 4) == cell@.circ_id,
        low_first_4(r@, 8) == cell@.command.spec_index(),
        r@.skip(20) == cell@.payload,
{
    let v = cell@;
    lemma_le_4(1);
    lemma_le_4(v.circ_id);
    lemma_le_4(v.command.spec_index());
    bytes::lemma_le_len(v.payload.len(), 8);
    let a = codec::put_u32(1);
    let b = codec::put_u32(v.circ_id);
    let c = codec::put_u32(v.command.spec_index());
    let s = r@;
    assert(s == a + (b + c + codec::put_bytes(v.payload)));
    assert(s[0] == a[0] && s[1] == a[1] && s[2] == a[2] && s[3] == a[3]);
    assert(s[4] == b[0] && s[5] == b[1] && s[6] == b[2] && s[7] == b[3]);
    assert(s[8] == c[0] && s[9] == c[1] && s[10] == c[2] && s[11] == c[3]);
    assert(s.skip(20) =~= v.payload);
}

/// What follows a relay cell does no harm.
pub proof fn law_relay_cells_are_read_from_the_front(v: RelayCellView, rest: Seq<u8>)
    requires
        v.data.len() <= u64::MAX,
    ensures
        wire::get_relay_cell(wire::put_relay_cell(v) + rest) == Some(v),
{
    let r4 = codec::put_bytes(v.data) + rest;
    let r3 = codec::put_u32(v.command.spec_index()) + r4;
    let r2 = codec::put_u32(v.digest) + r3;
    let r1 = codec::put_u16(v.recognized) + r2;
    assert(wire::put_relay_cell(v) + rest =~= codec::put_u16(v.stream_id) + r1);
    codec::lemma_u16_round_trip(v.stream_id, r1);
    codec::lemma_u16_round_trip(v.recognized, r2);
    codec::lemma_u32_round_trip(v.digest, r3);
    codec::lemma_u32_round_trip(v.command.spec_index(), r4);
    codec::lemma_bytes_round_trip(v.data, rest);
}

/// The commands are numbered in the order in which the protocol lists them: on the wire from 0 on
/// without a gap, and in the protocol's own numbers from 1 to 15 and from 32 to 39.
pub proof fn law_commands_are_numbered_in_order(c: RelayCommand, d: RelayCommand, cell: CellCommand)
    ensures
        RelayCommand::Begin.spec_code() == 1,
        RelayCommand::Begin.spec_code() < RelayCommand::Data.spec_code(),
        RelayCommand::Data.spec_code() < RelayCommand::End.spec_code(),
        RelayCommand::End.spec_code() < RelayCommand::Connected.spec_code(),
        RelayCommand::Connected.spec_code() < RelayCommand::SendMe.spec_code(),
        RelayCommand::SendMe.spec_code() < RelayCommand::Extend.spec_code(),
        RelayCommand::Extend.spec_code() < RelayCommand::Extended.spec_code(),
        RelayCommand::Extended.spec_code() < RelayCommand::Truncate.spec_code(),
        RelayCommand::Truncate.spec_code() < RelayCommand::Truncated.spec_code(),
        RelayCommand::Truncated.spec_code() < RelayCommand::Drop.spec_code(),
        RelayCommand::Drop.spec_code() < RelayCommand::Resolve.spec_code(),
        RelayCommand::Resolve.spec_code() < RelayCommand::Resolved.spec_code(),
        RelayCommand::Resolved.spec_code() < RelayCommand::BeginDir.spec_code(),
        RelayCommand::BeginDir.spec_code() < RelayCommand::Extend2.spec_code(),
        RelayCommand::Extend2.spec_code() < RelayCommand::Extended2.spec_code(),
        RelayCommand::Extended2.spec_code() == 15,
        RelayCommand::EstablishIntro.spec_code() == 32,
        RelayCommand::EstablishIntro.spec_code() < RelayCommand::Introduce1.spec_code(),
        RelayCommand::Introduce1.spec_code() < RelayCommand::Introduce2.spec_code(),
        RelayCommand::Introduce2.spec_code() < RelayCommand::Rendezvous1.spec_code(),
        RelayCommand::Rendezvous1.spec_code() < RelayCommand::Rendezvous2.spec_code(),
        RelayCommand::Rendezvous2.spec_code() < RelayCommand::IntroEstablished.spec_code(),
        RelayCommand::IntroEstablished.spec_code() < RelayCommand::EstablishRendezvous.spec_code(),
        RelayCommand::EstablishRendezvous.spec_code()
            < RelayCommand::RendezvousEstablished.spec_code(),
        RelayCommand::RendezvousEstablished.spec_code() == 39,
        c.spec_code() < d.spec_code() <==> c.spec_index() < d.spec_index(),
        c.spec_index() < 23,
        RelayCommand::spec_at(c.spec_index()) == Some(c),
        CellCommand::Padding.spec_index() < CellCommand::Create.spec_index(),
        CellCommand::Create.spec_index() < CellCommand::Created.spec_index(),
        CellCommand::Created.spec_index() < CellCommand::Relay.spec_index(),
        CellCommand::Relay.spec_index() < CellCommand::Destroy.spec_index(),
        cell.spec_index() < 5,
        cell.spec_code() == cell.spec_index(),
        CellCommand::spec_at(cell.spec_index()) == Some(cell),
{
}

/// The numbers that are given out, and the commands that are read from them, are those.
pub proof fn law_numbers_are_read_back(
    c: RelayCommand,
    index: u32,
    code: u8,
    back: Option<RelayCommand>,
    cell: CellCommand,
    place: u32,
    number: u8,
    again: Option<CellCommand>,
)
    requires
        call_ensures(RelayCommand::index, (c,), index),
        call_ensures(RelayCommand::code, (c,), code),
        call_ensures(RelayCommand::at, (index,), back),
        call_ensures(CellCommand::index, (cell,), place),
        call_ensures(CellCommand::code, (cell,), number),
        call_ensures(CellCommand::at, (place,), again),
    ensures
        back == Some(c),
        again == Some(cell),
        index < 23,
        code as int == index + if index < 15 {
            1int
        } else {
            17int
        },
        place < 5,
        number == place,
{
}

/// Where an address stands on the wire: its kind in four bytes, its octets in the order in which they
/// are written, the high byte of a segment first, and its port lowest byte first.
pub proof fn law_addresses_on_the_wire(addr: SocketAddr)
    ensures
        ({
            let s = descriptor::put_addr(addr);
            match addr {
                SocketAddr::V4 { ip, port } => {
                    &&& s.len() == 10
                    &&& low_first_4(s, 0) == 0
                    &&& s[4] == ip.a
                    &&& s[5] == ip.b
                    &&& s[6] == ip.c
                    &&& s[7] == ip.d
                    &&& low_first_2(s, 8) == port
                },
                SocketAddr::V6 { ip6, port, .. } => {
                    &&& s.len() == 22
                    &&& low_first_4(s, 0) == 1
                    &&& 256 * s[4] + s[5] == ip6.a
                    &&& 256 * s[6] + s[7] == ip6.b
                    &&& 256 * s[8] + s[9] == ip6.c
                    &&& 256 * s[10] + s[11] == ip6.d
                    &&& 256 * s[12] + s[13] == ip6.e
                    &&& 256 * s[14] + s[15] == ip6.f
                    &&& 256 * s[16] + s[17] == ip6.g
                    &&& 256 * s[18] + s[19] == ip6.h
                    &&& low_first_2(s, 20) == port
                },
            }
        }),
{
    let s = descriptor::put_addr(addr);
    match addr {
        SocketAddr::V4 { ip, port } => {
            lemma_le_4(0);
            lemma_le_2(port);
            let k = codec::put_u32(0);
            let p = codec::put_u16(port);
            assert(s[0] == k[0] && s[1] == k[1] && s[2] == k[2] && s[3] == k[3]);
            assert(s[8] == p[0] && s[9] == p[1]);
        },
        SocketAddr::V6 { ip6, port, .. } => {
            lemma_le_4(1);
            lemma_le_2(port);
            descriptor::lemma_ipv6_octets(ip6);
            let k = codec::put_u32(1);
            let p = codec::put_u16(port);
            let o = descriptor::put_ipv6(ip6);
            assert(s[0] == k[0] && s[1] == k[1] && s[2] == k[2] && s[3] == k[3]);
            assert(s[20] == p[0] && s[21] == p[1]);
            assert forall|i: int| 0 <= i < 16 implies s[4 + i] == #[trigger] o[i] by {
            }
            assert(s[4] == o[0] && s[5] == o[1] && s[6] == o[2] && s[7] == o[3]);
            assert(s[8] == o[4] && s[9] == o[5] && s[10] == o[6] && s[11] == o[7]);
            assert(s[12] == o[8] && s[13] == o[9] && s[14] == o[10] && s[15] == o[11]);
            assert(s[16] == o[12] && s[17] == o[13] && s[18] == o[14] && s[19] == o[15]);
        },
    }
}

/// What a relay signs reads as its descriptor with 64 zero bytes in place of the signature, and does
/// not depend on the signature that it has.
pub proof fn law_relays_sign_themselves_unsigned(v: RelayView, other: Seq<u8>)
    requires
        descriptor::relay_is_plain(v),
    ensures
        descriptor::get_relay(descriptor::relay_message(v)) matches Some((read, rest)) && rest.len()
            == 0 && read.id == v.id && read.external_address == v.external_address
            && read.tls_public_key == v.tls_public_key && read.last_updated == v.last_updated
            && read.signature.len() == 64 && forall|i: int|
            0 <= i < 64 ==> #[trigger] read.signature[i] == 0,
        descriptor::relay_message(RelayView { signature: other, ..v }) == descriptor::relay_message(
            v,
        ),
{
    let none = Seq::<u8>::empty();
    let blank = RelayView { signature: bytes::zeros(64), ..v };
    descriptor::lemma_relay_round_trip(blank, none);
    assert(descriptor::put_relay(blank) + none =~= descriptor::put_relay(blank));
}

/// What a service signs begins with its key, ends with 64 zero bytes in place of the signature, and
/// does not depend on the signature that it has.
pub proof fn law_services_sign_themselves_unsigned(v: ServiceView, other: Seq<u8>)
    requires
        v.identity_key.len() <= u64::MAX,
    ensures
        match codec::get_bytes(descriptor::service_message(v)) {
            Some((key, rest)) => {
                &&& key == v.identity_key
                &&& rest.len() >= 72
                &&& codec::get_u64(rest).unwrap().0 == v.introduction_points.len() as u64
                &&& forall|i: int|
                    rest.len() - 64 <= i < rest.len() ==> #[trigger] rest[i] == 0
            },
            None => false,
        },
        descriptor::service_message(ServiceView { signature: other, ..v })
            == descriptor::service_message(v),
{
    let n = v.introduction_points.len() as u64;
    let addrs = descriptor::put_addrs(v.introduction_points);
    let z = bytes::zeros(64);
    let rest = codec::put_u64(n) + (addrs + z);
    assert(descriptor::service_message(v) =~= codec::put_bytes(v.identity_key) + rest);
    codec::lemma_bytes_round_trip(v.identity_key, rest);
    codec::lemma_u64_round_trip(n, addrs + z);
    bytes::lemma_le_len(n as nat, 8);
}

/// A packet is its payload behind four bytes, and those spell the length of the payload, highest byte
/// first, for every payload that they can count.
pub proof fn law_packets_begin_with_their_length(payload: Vec<u8>, r: Vec<u8>)
    requires
        payload@.len() < 0x1_0000_0000,
        call_ensures(Packet::encapsulate, (payload,), r),
    ensures
        r@.len() == 4 + payload@.len(),
        16777216 * r@[0] + 65536 * r@[1] + 256 * r@[2] + r@[3] == payload@.len(),
        r@.skip(4) == payload@,
{
    let n = payload@.len();
    assert(r@[0] == bytes::be32(n)[0]);
    assert(r@[1] == bytes::be32(n)[1]);
    assert(r@[2] == bytes::be32(n)[2]);
    assert(r@[3] == bytes::be32(n)[3]);
    assert(n / 16777216 < 256);
    assert(n == (n / 16777216) * 16777216 + ((n / 65536) % 256) * 65536 + ((n / 256) % 256) * 256
        + n % 256);
    assert(r@.skip(4) =~= payload@);
}

/// A packet is read from its length: as many bytes behind the first four as they announce, if there
/// are so many and it is no more than 16 MiB.
pub proof fn law_packets_are_read_by_their_length(data: &[u8], r: Result<Packet, FrameError>)
    requires
        data@.len() >= 4,
        call_ensures(Packet::decapsulate, (data,), r),
    ensures
        ({
            let n = 16777216 * data@[0] + 65536 * data@[1] + 256 * data@[2] + data@[3];
            match r {
                Ok(p) => n <= 16777216 && data@.len() >= 4 + n && p.payload@.len() == n && p.payload@
                    + data@.skip(4 + n) == data@.skip(4),
                Err(FrameError::TooLarge(m)) => n > 16777216 && m == n,
                Err(FrameError::Truncated) => n <= 16777216 && data@.len() < 4 + n,
            }
        }),
{
    let n = 16777216 * data@[0] + 65536 * data@[1] + 256 * data@[2] + data@[3];
    match r {
        Ok(p) => {
            assert(p.payload@ + data@.skip(4 + n) =~= data@.skip(4));
        },
        Err(_) => {},
    }
}

/// A header of four bytes announces the length that it spells, highest byte first, up to 16 MiB.
pub proof fn law_headers_announce_lengths(header: [u8; 4], r: Result<u32, FrameError>)
    requires
        call_ensures(Packet::payload_length, (header,), r),
    ensures
        ({
            let n = 16777216 * header@[0] + 65536 * header@[1] + 256 * header@[2] + header@[3];
            r == if n <= 16777216 {
                Ok::<u32, FrameError>(n as u32)
            } else {
                Err(FrameError::TooLarge(n as u32))
            }
        }),
{
    assert(packet::announced(header@) <= u32::MAX);
}

/// Bytes are those of the number that they are read as.
proof fn lemma_le_of_from_le(s: Seq<u8>)
    ensures
        bytes::le(bytes::from_le(s), s.len()) == s,
        bytes::from_le(s) < bytes::byte_span(s.len()),
    decreases s.len(),
{
    if s.len() > 0 {
        let rest = s.drop_first();
        lemma_le_of_from_le(rest);
        let x = bytes::from_le(s);
        assert(x == s[0] + 256 * bytes::from_le(rest));
        assert(x % 256 == s[0]);
        assert(x / 256 == bytes::from_le(rest));
        assert(seq![s[0]] + rest =~= s);
    }
}

proof fn lemma_u16_stands_there(s: Seq<u8>)
    ensures
        codec::get_u16(s) matches Some((x, rest)) ==> s == codec::put_u16(x) + rest,
{
    if s.len() >= 2 {
        bytes::lemma_byte_spans();
        lemma_le_of_from_le(s.take(2));
        assert(s =~= s.take(2) + s.skip(2));
    }
}

proof fn lemma_u32_stands_there(s: Seq<u8>)
    ensures
        codec::get_u32(s) matches Some((x, rest)) ==> s == codec::put_u32(x) + rest,
{
    if s.len() >= 4 {
        bytes::lemma_byte_spans();
        lemma_le_of_from_le(s.take(4));
        assert(s =~= s.take(4) + s.skip(4));
    }
}

proof fn lemma_u64_stands_there(s: Seq<u8>)
    ensures
        codec::get_u64(s) matches Some((x, rest)) ==> s == codec::put_u64(x) + rest,
{
    if s.len() >= 8 {
        bytes::lemma_byte_spans();
        lemma_le_of_from_le(s.take(8));
        assert(s =~= s.take(8) + s.skip(8));
    }
}

proof fn lemma_bytes_stand_there(s: Seq<u8>)
    ensures
        codec::get_bytes(s) matches Some((data, rest)) ==> s == codec::put_bytes(data) + rest,
{
    lemma_u64_stands_there(s);
    match codec::get_u64(s) {
        Some((n, after)) => {
            if n <= after.len() {
                let data = after.take(n as int);
                let rest = after.skip(n as int);
                assert(data.len() == n);
                assert(codec::put_u64(n) + after =~= codec::put_bytes(data) + rest);
            }
        },
        None => {},
    }
}

/// What is read of a relay cell stands at the beginning of what it is read from, byte for byte.
pub proof fn law_relay_cells_stand_where_they_are_read(s: Seq<u8>, v: RelayCellView)
    requires
        wire::get_relay_cell(s) == Some(v),
    ensures
        ({
            let n = wire::put_relay_cell(v).len() as int;
            n <= s.len() && s.take(n) == wire::put_relay_cell(v)
        }),
{
    lemma_u16_stands_there(s);
    let r1 = codec::get_u16(s).unwrap().1;
    lemma_u16_stands_there(r1);
    let r2 = codec::get_u16(r1).unwrap().1;
    lemma_u32_stands_there(r2);
    let r3 = codec::get_u32(r2).unwrap().1;
    lemma_u32_stands_there(r3);
    let (index, r4) = codec::get_u32(r3).unwrap();
    assert(v.command.spec_index() == index);
    lemma_bytes_stand_there(r4);
    let rest = codec::get_bytes(r4).unwrap().1;
    assert(s =~= wire::put_relay_cell(v) + rest);
    assert(s.take(wire::put_relay_cell(v).len() as int) =~= wire::put_relay_cell(v));
}

proof fn lemma_pair_stands_there(s: Seq<u8>, i: int)
    requires
        0 <= i < s.len() - 1,
    ensures
        bytes::be16(bytes::be16_at(s, i)) == s.subrange(i, i + 2),
{
    let x = s[i] as nat * 256 + s[i + 1] as nat;
    assert(x < 65536);
    assert(x / 256 == s[i]);
    assert(x % 256 == s[i + 1]);
    assert(bytes::be16(x as u16) =~= s.subrange(i, i + 2));
}

proof fn lemma_ipv6_stands_there(s: Seq<u8>)
    requires
        s.len() == 16,
    ensures
        descriptor::put_ipv6(
            Ipv6Addr {
                a: bytes::be16_at(s, 0),
                b: bytes::be16_at(s, 2),
                c: bytes::be16_at(s, 4),
                d: bytes::be16_at(s, 6),
                e: bytes::be16_at(s, 8),
                f: bytes::be16_at(s, 10),
                g: bytes::be16_at(s, 12),
                h: bytes::be16_at(s, 14),
            },
        ) == s,
{
    lemma_pair_stands_there(s, 0);
    lemma_pair_stands_there(s, 2);
    lemma_pair_stands_there(s, 4);
    lemma_pair_stands_there(s, 6);
    lemma_pair_stands_there(s, 8);
    lemma_pair_stands_there(s, 10);
    lemma_pair_stands_there(s, 12);
    lemma_pair_stands_there(s, 14);
    assert(s.subrange(0, 2) + s.subrange(2, 4) =~= s.subrange(0, 4));
    assert(s.subrange(0, 4) + s.subrange(4, 6) =~= s.subrange(0, 6));
    assert(s.subrange(0, 6) + s.subrange(6, 8) =~= s.subrange(0, 8));
    assert(s.subrange(0, 8) + s.subrange(8, 10) =~= s.subrange(0, 10));
    assert(s.subrange(0, 10) + s.subrange(10, 12) =~= s.subrange(0, 12));
    assert(s.subrange(0, 12) + s.subrange(12, 14) =~= s.subrange(0, 14));
    assert(s.subrange(0, 14) + s.subrange(14, 16) =~= s);
}

proof fn lemma_address_stands_there(s: Seq<u8>)
    ensures
        descriptor::get_addr(s) matches Some((a, rest)) ==> s == descriptor::put_addr(a) + rest,
{
    lemma_u32_stands_there(s);
    match descriptor::get_addr(s) {
        Some((a, rest)) => {
            let (kind, after) = codec::get_u32(s).unwrap();
            let n: int = if kind == 0 {
                4
            } else {
                16
            };
            let o = after.take(n);
            let port = codec::get_u16(after.skip(n)).unwrap().0;
            lemma_u16_stands_there(after.skip(n));
            assert(after =~= o + after.skip(n));
            if kind == 0 {
                assert(a->ip.octets() =~= o);
            } else {
                lemma_ipv6_stands_there(o);
            }
            bytes::lemma_regroup(codec::put_u32(kind), o, codec::put_u16(port), rest);
        },
        None => {},
    }
}

proof fn lemma_regroup_more(
    a: Seq<u8>,
    b: Seq<u8>,
    c: Seq<u8>,
    d: Seq<u8>,
    e: Seq<u8>,
    rest: Seq<u8>,
)
    ensures
        a + b + c + d + e + rest == a + (b + (c + (d + (e + rest)))),
{
    bytes::lemma_regroup(a + b, c, d, e + rest);
    assert(a + b + c + d + e + rest =~= a + b + c + d + (e + rest));
    assert(a + b + (c + (d + (e + rest))) =~= a + (b + (c + (d + (e + rest)))));
}

proof fn lemma_relay_stands_there(s: Seq<u8>)
    ensures
        descriptor::get_relay(s) matches Some((v, rest)) ==> s == descriptor::put_relay(v) + rest,
{
    reveal(descriptor::get_relay);
    match descriptor::get_relay(s) {
        Some((v, rest)) => {
            lemma_bytes_stand_there(s);
            let r1 = codec::get_bytes(s).unwrap().1;
            lemma_address_stands_there(r1);
            let r2 = descriptor::get_addr(r1).unwrap().1;
            lemma_bytes_stand_there(r2);
            let r3 = codec::get_bytes(r2).unwrap().1;
            lemma_u64_stands_there(r3);
            let r4 = codec::get_u64(r3).unwrap().1;
            assert(r4 =~= v.signature + rest);
            lemma_regroup_more(
                codec::put_bytes(v.id),
                descriptor::put_addr(v.external_address),
                codec::put_bytes(v.tls_public_key),
                codec::put_u64(v.last_updated),
                v.signature,
                rest,
            );
            reveal(descriptor::put_relay);
        },
        None => {},
    }
}

proof fn lemma_relays_stand_there(s: Seq<u8>, n: nat, before: Seq<RelayView>) -> (rest: Seq<u8>)
    requires
        wire::get_relays(s, n, before) is Some,
    ensures
        ({
            let list = wire::get_relays(s, n, before).unwrap();
            let new = list.skip(before.len() as int);
            &&& list == before + new
            &&& new.len() == n
            &&& s == wire::put_relays(new) + rest
        }),
    decreases n,
{
    if n == 0 {
        assert(before.skip(before.len() as int) =~= Seq::<RelayView>::empty());
        assert(before =~= before + Seq::<RelayView>::empty());
        assert(s =~= Seq::<u8>::empty() + s);
        s
    } else {
        lemma_relay_stands_there(s);
        let (d, after) = descriptor::get_relay(s).unwrap();
        let rest = lemma_relays_stand_there(after, (n - 1) as nat, before.push(d));
        let list = wire::get_relays(s, n, before).unwrap();
        let new = list.skip(before.len() as int);
        assert(list[before.len() as int] == d);
        assert(list =~= before + new);
        wire::lemma_put_relays_first(new);
        assert(new.drop_first() =~= list.skip(before.len() as int + 1));
        assert(s =~= wire::put_relays(new) + rest);
        rest
    }
}

/// What is read of a message stands at the beginning of what it is read from, byte for byte.
pub proof fn law_messages_stand_where_they_are_read(s: Seq<u8>, v: MessageView)
    requires
        wire::get_message(s) == Some(v),
    ensures
        ({
            let n = wire::put_message(v).len() as int;
            n <= s.len() && s.take(n) == wire::put_message(v)
        }),
{
    lemma_u32_stands_there(s);
    let r0 = codec::get_u32(s).unwrap().1;
    lemma_u32_stands_there(r0);
    let r1 = codec::get_u32(r0).unwrap().1;
    let rest = match v {
        MessageView::TorCell(cell) => {
            lemma_u32_stands_there(r1);
            let (index, r2) = codec::get_u32(r1).unwrap();
            assert(cell.command.spec_index() == index);
            lemma_bytes_stand_there(r2);
            codec::get_bytes(r2).unwrap().1
        },
        MessageView::Gossip(list) => {
            lemma_u64_stands_there(r1);
            let (n, r2) = codec::get_u64(r1).unwrap();
            let rest = lemma_relays_stand_there(r2, n as nat, Seq::empty());
            assert(list.skip(0) =~= list);
            rest
        },
    };
    assert(s =~= wire::put_message(v) + rest);
    assert(s.take(wire::put_message(v).len() as int) =~= wire::put_message(v));
}

proof fn lemma_cell_read_from_the_front(cell: CellView, rest: Seq<u8>)
    requires
        cell.payload.len() <= u64::MAX,
    ensures
        wire::get_cell(wire::put_cell(cell) + rest) == Some(cell),
{
    let r2 = codec::put_bytes(cell.payload) + rest;
    let r1 = codec::put_u32(cell.command.spec_index()) + r2;
    bytes::lemma_regroup(
        codec::put_u32(cell.circ_id),
        codec::put_u32(cell.command.spec_index()),
        codec::put_bytes(cell.payload),
        rest,
    );
    codec::lemma_u32_round_trip(cell.circ_id, r1);
    codec::lemma_u32_round_trip(cell.command.spec_index(), r2);
    codec::lemma_bytes_round_trip(cell.payload, rest);
}

proof fn lemma_gossip_read_from_the_front(list: Seq<RelayView>, rest: Seq<u8>)
    requires
        wire::message_is_plain(MessageView::Gossip(list)),
    ensures
        wire::get_message(wire::put_message(MessageView::Gossip(list)) + rest) == Some(
            MessageView::Gossip(list),
        ),
{
    let zero = codec::put_u32(0);
    let n = codec::put_u64(list.len() as u64);
    let relays = wire::put_relays(list);
    assert((zero + zero + n + relays) + rest == zero + (zero + (n + (relays + rest)))) by {
        bytes::lemma_regroup(zero + zero, n, relays, rest);
        assert(zero + zero + (n + (relays + rest)) =~= zero + (zero + (n + (relays + rest))));
    }
    codec::lemma_u32_round_trip(0, zero + (n + (relays + rest)));
    codec::lemma_u32_round_trip(0, n + (relays + rest));
    codec::lemma_u64_round_trip(list.len() as u64, relays + rest);
    wire::lemma_relays_round_trip(list, Seq::empty(), rest);
    assert(Seq::<RelayView>::empty() + list =~= list);
}

/// What follows a message does no harm.
pub proof fn law_messages_are_read_from_the_front(v: MessageView, rest: Seq<u8>)
    requires
        wire::message_is_plain(v),
    ensures
        wire::get_message(wire::put_message(v) + rest) == Some(v),
{
    match v {
        MessageView::TorCell(cell) => {
            let one = codec::put_u32(1);
            let body = wire::put_cell(cell);
            assert((one + body) + rest =~= one + (body + rest));
            codec::lemma_u32_round_trip(1, body + rest);
            lemma_cell_read_from_the_front(cell, rest);
        },
        MessageView::Gossip(list) => lemma_gossip_read_from_the_front(list, rest),
    }
}

} // verus!
