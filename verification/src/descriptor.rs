//! Signed descriptors: what a relay and a hidden service publish about themselves.

use crate::addr::{Ipv4Addr, Ipv6Addr, SocketAddr};
use crate::bytes;
use crate::codec;
use crate::codec::Reader;
use crate::crypto;
use crate::identity;
use crate::identity::{SigningKey, VerifyingKey};
use vstd::prelude::*;

verus! {

pub open spec fn put_ipv6(ip: Ipv6Addr) -> Seq<u8> {
    bytes::be16(ip.a) + bytes::be16(ip.b) + bytes::be16(ip.c) + bytes::be16(ip.d) + bytes::be16(
        ip.e,
    ) + bytes::be16(ip.f) + bytes::be16(ip.g) + bytes::be16(ip.h)
}

/// An address on the wire: which of the two kinds it is, the address and the port. The flow label
/// and the scope of an IPv6 address are not sent.
pub open spec fn put_addr(a: SocketAddr) -> Seq<u8> {
    match a {
        SocketAddr::V4 { ip, port } => codec::put_u32(0) + ip.octets() + codec::put_u16(port),
        SocketAddr::V6 { ip6, port, .. } => codec::put_u32(1) + put_ipv6(ip6) + codec::put_u16(port),
    }
}

pub open spec fn get_addr(s: Seq<u8>) -> Option<(SocketAddr, Seq<u8>)> {
    match codec::get_u32(s) {
        None => None,
        Some((kind, rest)) => if kind == 0 {
            match codec::get_raw(rest, 4) {
                None => None,
                Some((o, rest)) => match codec::get_u16(rest) {
                    None => None,
                    Some((port, rest)) => Some(
                        (
                            SocketAddr::V4 {
                                ip: Ipv4Addr { a: o[0], b: o[1], c: o[2], d: o[3] },
                                port,
                            },
                            rest,
                        ),
                    ),
                },
            }
        } else if kind == 1 {
            match codec::get_raw(rest, 16) {
                None => None,
                Some((o, rest)) => match codec::get_u16(rest) {
                    None => None,
                    Some((port, rest)) => Some(
                        (
                            SocketAddr::V6 {
                                ip6: Ipv6Addr {
                                    a: bytes::be16_at(o, 0),
                                    b: bytes::be16_at(o, 2),
                                    c: bytes::be16_at(o, 4),
                                    d: bytes::be16_at(o, 6),
                                    e: bytes::be16_at(o, 8),
                                    f: bytes::be16_at(o, 10),
                                    g: bytes::be16_at(o, 12),
                                    h: bytes::be16_at(o, 14),
                                },
                                port,
                                flowinfo: 0,
                                scope_id: 0,
                            },
                            rest,
                        ),
                    ),
                },
            }
        } else {
            None
        },
    }
}

/// Whether the wire carries all of an address.
pub open spec fn addr_is_plain(a: SocketAddr) -> bool {
    a matches SocketAddr::V6 { flowinfo, scope_id, .. } ==> flowinfo == 0 && scope_id == 0
}

fn write_ipv6(out: &mut Vec<u8>, ip: Ipv6Addr)
    ensures
        final(out)@ == old(out)@ + put_ipv6(ip),
{
    bytes::push_be16(out, ip.a);
    bytes::push_be16(out, ip.b);
    bytes::push_be16(out, ip.c);
    bytes::push_be16(out, ip.d);
    bytes::push_be16(out, ip.e);
    bytes::push_be16(out, ip.f);
    bytes::push_be16(out, ip.g);
    bytes::push_be16(out, ip.h);
    assert(out@ =~= old(out)@ + put_ipv6(ip));
}

pub fn write_addr(out: &mut Vec<u8>, a: SocketAddr)
    ensures
        final(out)@ == old(out)@ + put_addr(a),
{
    match a {
        SocketAddr::V4 { ip, port } => {
            codec::write_u32(out, 0);
            out.push(ip.a);
            out.push(ip.b);
            out.push(ip.c);
            out.push(ip.d);
            codec::write_u16(out, port);
        },
        SocketAddr::V6 { ip6, port, .. } => {
            codec::write_u32(out, 1);
            write_ipv6(out, ip6);
            codec::write_u16(out, port);
        },
    }
    assert(out@ =~= old(out)@ + put_addr(a));
}

pub fn read_addr(r: &mut Reader) -> (a: Option<SocketAddr>)
    ensures
        match get_addr(old(r)@) {
            Some((v, rest)) => a == Some(v) && final(r)@ == rest,
            None => a is None,
        },
{
    let kind: u32 = r.read_u32()?;
    if kind == 0 {
        let o = r.read_raw(4)?;
        let port: u16 = r.read_u16()?;
        Some(SocketAddr::V4 { ip: Ipv4Addr { a: o[0], b: o[1], c: o[2], d: o[3] }, port })
    } else if kind == 1 {
        let o = r.read_raw(16)?;
        let port: u16 = r.read_u16()?;
        Some(
            SocketAddr::V6 {
                ip6: Ipv6Addr {
                    a: bytes::read_be16(o.as_slice(), 0),
                    b: bytes::read_be16(o.as_slice(), 2),
                    c: bytes::read_be16(o.as_slice(), 4),
                    d: bytes::read_be16(o.as_slice(), 6),
                    e: bytes::read_be16(o.as_slice(), 8),
                    f: bytes::read_be16(o.as_slice(), 10),
                    g: bytes::read_be16(o.as_slice(), 12),
                    h: bytes::read_be16(o.as_slice(), 14),
                },
                port,
                flowinfo: 0,
                scope_id: 0,
            },
        )
    } else {
        None
    }
}

proof fn lemma_be16_at(s: Seq<u8>, before: Seq<u8>, x: u16, after: Seq<u8>)
    requires
        s == before + bytes::be16(x) + after,
    ensures
        bytes::be16_at(s, before.len() as int) == x,
{
    assert(s[before.len() as int] == bytes::be16(x)[0]);
    assert(s[before.len() as int + 1] == bytes::be16(x)[1]);
    assert(x as nat == (x as nat / 256) * 256 + x as nat % 256);
}

#[verifier::spinoff_prover]
pub proof fn lemma_ipv6_octets(ip: Ipv6Addr)
    ensures
        put_ipv6(ip).len() == 16,
        bytes::be16_at(put_ipv6(ip), 0) == ip.a,
        bytes::be16_at(put_ipv6(ip), 2) == ip.b,
        bytes::be16_at(put_ipv6(ip), 4) == ip.c,
        bytes::be16_at(put_ipv6(ip), 6) == ip.d,
        bytes::be16_at(put_ipv6(ip), 8) == ip.e,
        bytes::be16_at(put_ipv6(ip), 10) == ip.f,
        bytes::be16_at(put_ipv6(ip), 12) == ip.g,
        bytes::be16_at(put_ipv6(ip), 14) == ip.h,
{
    let s = put_ipv6(ip);
    let p1 = bytes::be16(ip.a);
    let p2 = p1 + bytes::be16(ip.b);
    let p3 = p2 + bytes::be16(ip.c);
    let p4 = p3 + bytes::be16(ip.d);
    let p5 = p4 + bytes::be16(ip.e);
    let p6 = p5 + bytes::be16(ip.f);
    let p7 = p6 + bytes::be16(ip.g);
    assert(s == p7 + bytes::be16(ip.h));
    assert(s =~= Seq::<u8>::empty() + bytes::be16(ip.a) + s.skip(2));
    lemma_be16_at(s, Seq::<u8>::empty(), ip.a, s.skip(2));
    assert(s =~= p1 + bytes::be16(ip.b) + s.skip(4));
    lemma_be16_at(s, p1, ip.b, s.skip(4));
    assert(s =~= p2 + bytes::be16(ip.c) + s.skip(6));
    lemma_be16_at(s, p2, ip.c, s.skip(6));
    assert(s =~= p3 + bytes::be16(ip.d) + s.skip(8));
    lemma_be16_at(s, p3, ip.d, s.skip(8));
    assert(s =~= p4 + bytes::be16(ip.e) + s.skip(10));
    lemma_be16_at(s, p4, ip.e, s.skip(10));
    assert(s =~= p5 + bytes::be16(ip.f) + s.skip(12));
    lemma_be16_at(s, p5, ip.f, s.skip(12));
    assert(s =~= p6 + bytes::be16(ip.g) + s.skip(14));
    lemma_be16_at(s, p6, ip.g, s.skip(14));
    assert(s =~= p7 + bytes::be16(ip.h) + s.skip(16));
    lemma_be16_at(s, p7, ip.h, s.skip(16));
}

proof fn lemma_ipv4_round_trip(ip: Ipv4Addr, port: u16, rest: Seq<u8>)
    ensures
        get_addr(put_addr(SocketAddr::V4 { ip, port }) + rest) == Some(
            (SocketAddr::V4 { ip, port }, rest),
        ),
{
    let o = ip.octets();
    let tail = codec::put_u16(port) + rest;
    bytes::lemma_regroup(codec::put_u32(0), o, codec::put_u16(port), rest);
    codec::lemma_u32_round_trip(0, o + tail);
    codec::lemma_raw_round_trip(o, tail);
    codec::lemma_u16_round_trip(port, rest);
}

proof fn lemma_ipv6_round_trip(ip6: Ipv6Addr, port: u16, rest: Seq<u8>)
    ensures
        get_addr(put_addr(SocketAddr::V6 { ip6, port, flowinfo: 0, scope_id: 0 }) + rest) == Some(
            (SocketAddr::V6 { ip6, port, flowinfo: 0, scope_id: 0 }, rest),
        ),
{
    lemma_ipv6_octets(ip6);
    let o = put_ipv6(ip6);
    let tail = codec::put_u16(port) + rest;
    bytes::lemma_regroup(codec::put_u32(1), o, codec::put_u16(port), rest);
    codec::lemma_u32_round_trip(1, o + tail);
    codec::lemma_raw_round_trip(o, tail);
    codec::lemma_u16_round_trip(port, rest);
}

pub proof fn lemma_addr_round_trip(a: SocketAddr, rest: Seq<u8>)
    requires
        addr_is_plain(a),
    ensures
        get_addr(put_addr(a) + rest) == Some((a, rest)),
{
    match a {
        SocketAddr::V4 { ip, port } => lemma_ipv4_round_trip(ip, port, rest),
        SocketAddr::V6 { ip6, port, .. } => lemma_ipv6_round_trip(ip6, port, rest),
    }
}

/// A key on the wire: a byte string of 32 bytes.
pub open spec fn get_key(s: Seq<u8>) -> Option<(Seq<u8>, Seq<u8>)> {
    match codec::get_bytes(s) {
        Some((key, rest)) => if identity::valid_key(key) {
            Some((key, rest))
        } else {
            None
        },
        None => None,
    }
}

fn write_key(out: &mut Vec<u8>, key: &VerifyingKey)
    ensures
        final(out)@ == old(out)@ + codec::put_bytes(key@),
{
    let raw = key.to_bytes();
    codec::write_bytes(out, &raw);
}

fn read_key(r: &mut Reader) -> (k: Option<VerifyingKey>)
    ensures
        match get_key(old(r)@) {
            Some((v, rest)) => k matches Some(key) && key@ == v && final(r)@ == rest,
            None => k is None,
        },
{
    let raw = r.read_bytes()?;
    VerifyingKey::from_slice(raw.as_slice())
}

/// The signature of a descriptor is not good.
#[derive(Debug, Clone, Copy, PartialEq, Eq, Structural)]
pub struct BadSignature;

/// What a relay publishes about itself.
#[derive(Debug)]
pub struct RelayDescriptor {
    pub id: VerifyingKey,
    pub external_address: SocketAddr,
    /// The TLS certificate of the relay, to which later connections are pinned.
    pub tls_public_key: Vec<u8>,
    /// Seconds since the beginning of 1970.
    pub last_updated: u64,
    pub signature: [u8; 64],
}

/// A `RelayDescriptor` as a mathematical value.
pub ghost struct RelayView {
    pub id: Seq<u8>,
    pub external_address: SocketAddr,
    pub tls_public_key: Seq<u8>,
    pub last_updated: u64,
    pub signature: Seq<u8>,
}

impl View for RelayDescriptor {
    type V = RelayView;

    open spec fn view(&self) -> RelayView {
        RelayView {
            id: self.id@,
            external_address: self.external_address,
            tls_public_key: self.tls_public_key@,
            last_updated: self.last_updated,
            signature: self.signature@,
        }
    }
}

impl Clone for RelayDescriptor {
    fn clone(&self) -> (r: RelayDescriptor)
        ensures
            r@ == self@,
    {
        RelayDescriptor {
            id: self.id,
            external_address: self.external_address,
            tls_public_key: self.tls_public_key.clone(),
            last_updated: self.last_updated,
            signature: self.signature,
        }
    }
}

/// A descriptor on the wire: its fields one after the other.
#[verifier::opaque]
pub open spec fn put_relay(v: RelayView) -> Seq<u8> {
    codec::put_bytes(v.id) + put_addr(v.external_address) + codec::put_bytes(v.tls_public_key)
        + codec::put_u64(v.last_updated) + v.signature
}

/// The descriptor at the beginning of `s`, and what follows it.
#[verifier::opaque]
pub open spec fn get_relay(s: Seq<u8>) -> Option<(RelayView, Seq<u8>)> {
    match get_key(s) {
        None => None,
        Some((id, rest)) => match get_addr(rest) {
            None => None,
            Some((external_address, rest)) => match codec::get_bytes(rest) {
                None => None,
                Some((tls_public_key, rest)) => match codec::get_u64(rest) {
                    None => None,
                    Some((last_updated, rest)) => match codec::get_raw(rest, 64) {
                        None => None,
                        Some((signature, rest)) => Some(
                            (
                                RelayView {
                                    id,
                                    external_address,
                                    tls_public_key,
                                    last_updated,
                                    signature,
                                },
                                rest,
                            ),
                        ),
                    },
                },
            },
        },
    }
}

/// The bytes that a relay signs: its descriptor with a signature of zeros.
pub open spec fn relay_message(v: RelayView) -> Seq<u8> {
    put_relay(RelayView { signature: bytes::zeros(64), ..v })
}

/// Whether the descriptor is signed by the key that it names.
pub open spec fn relay_verifies(v: RelayView) -> bool {
    crypto::ed25519_verifies(v.id, relay_message(v), v.signature)
}

/// Whether the wire carries all of a descriptor.
pub open spec fn relay_is_plain(v: RelayView) -> bool {
    identity::valid_key(v.id) && addr_is_plain(v.external_address) && v.tls_public_key.len()
        <= u64::MAX && v.signature.len() == 64
}

pub fn write_relay(out: &mut Vec<u8>, d: &RelayDescriptor)
    ensures
        final(out)@ == old(out)@ + put_relay(d@),
{
    reveal(put_relay);
    write_unsigned_relay(out, d);
    bytes::append_bytes(out, &d.signature);
    assert(out@ =~= old(out)@ + put_relay(d@));
}

fn write_unsigned_relay(out: &mut Vec<u8>, d: &RelayDescriptor)
    ensures
        final(out)@ == old(out)@ + (codec::put_bytes(d@.id) + put_addr(d@.external_address)
            + codec::put_bytes(d@.tls_public_key) + codec::put_u64(d@.last_updated)),
{
    write_key(out, &d.id);
    write_addr(out, d.external_address);
    codec::write_bytes(out, d.tls_public_key.as_slice());
    codec::write_u64(out, d.last_updated);
    assert(out@ =~= old(out)@ + (codec::put_bytes(d@.id) + put_addr(d@.external_address)
        + codec::put_bytes(d@.tls_public_key) + codec::put_u64(d@.last_updated)));
}

pub fn read_relay(r: &mut Reader) -> (d: Option<RelayDescriptor>)
    ensures
        match get_relay(old(r)@) {
            Some((v, rest)) => d matches Some(x) && x@ == v && final(r)@ == rest,
            None => d is None,
        },
{
    reveal(get_relay);
    let id = read_key(r)?;
    let external_address = read_addr(r)?;
    let tls_public_key = r.read_bytes()?;
    let last_updated: u64 = r.read_u64()?;
    let raw = r.read_raw(64)?;
    let signature = bytes::array_64(raw.as_slice());
    assert(signature@ =~= raw@);
    Some(RelayDescriptor { id, external_address, tls_public_key, last_updated, signature })
}

pub proof fn lemma_relay_round_trip(v: RelayView, rest: Seq<u8>)
    requires
        relay_is_plain(v),
    ensures
        get_relay(put_relay(v) + rest) == Some((v, rest)),
{
    reveal(put_relay);
    reveal(get_relay);
    let r4 = v.signature + rest;
    let r3 = codec::put_u64(v.last_updated) + r4;
    let r2 = codec::put_bytes(v.tls_public_key) + r3;
    let r1 = put_addr(v.external_address) + r2;
    assert(put_relay(v) + rest =~= codec::put_bytes(v.id) + r1);
    codec::lemma_bytes_round_trip(v.id, r1);
    lemma_addr_round_trip(v.external_address, r2);
    codec::lemma_bytes_round_trip(v.tls_public_key, r3);
    codec::lemma_u64_round_trip(v.last_updated, r4);
    codec::lemma_raw_round_trip(v.signature, rest);
}

/// The signature of a relay covers everything that the wire carries of its descriptor: what is signed
/// fixes the key, the address, the certificate and the time.
pub proof fn law_signature_covers_the_descriptor(a: RelayView, b: RelayView)
    requires
        relay_is_plain(a),
        relay_is_plain(b),
        relay_message(a) == relay_message(b),
    ensures
        a.id == b.id,
        a.external_address == b.external_address,
        a.tls_public_key == b.tls_public_key,
        a.last_updated == b.last_updated,
{
    let none = Seq::<u8>::empty();
    let blank_a = RelayView { signature: bytes::zeros(64), ..a };
    let blank_b = RelayView { signature: bytes::zeros(64), ..b };
    lemma_relay_round_trip(blank_a, none);
    lemma_relay_round_trip(blank_b, none);
}

/// Whether a signature is good for nothing but one message under a key. That no one finds another
/// message is what Ed25519 is for, and cannot be proved.
pub open spec fn is_good_for_one(key: Seq<u8>, message: Seq<u8>, signature: Seq<u8>) -> bool {
    forall|other: Seq<u8>| #[trigger]
        crypto::ed25519_verifies(key, other, signature) ==> other == message
}

/// Whether what a secret key signed is good under no other public key than its own. That is what
/// Ed25519 is for, and cannot be proved.
pub open spec fn is_good_under_one(seed: Seq<u8>, message: Seq<u8>) -> bool {
    forall|key: Seq<u8>| #[trigger]
        crypto::ed25519_verifies(key, message, crypto::ed25519_signature(seed, message)) ==> key
            == crypto::ed25519_public(seed)
}

/// A descriptor in which the address, the certificate or the time was changed, without signing it
/// again, does not verify, as long as its signature is good for nothing but what was signed.
pub proof fn law_altered_descriptors_are_refused(signed: RelayView, altered: RelayView)
    requires
        relay_is_plain(signed),
        relay_is_plain(altered),
        is_good_for_one(signed.id, relay_message(signed), signed.signature),
        altered.id == signed.id,
        altered.signature == signed.signature,
        altered.external_address != signed.external_address || altered.tls_public_key
            != signed.tls_public_key || altered.last_updated != signed.last_updated,
    ensures
        !relay_verifies(altered),
{
    if relay_verifies(altered) {
        law_signature_covers_the_descriptor(signed, altered);
    }
}

impl RelayDescriptor {
    fn message(&self) -> (r: Vec<u8>)
        ensures
            r@ == relay_message(self@),
    {
        let mut out: Vec<u8> = Vec::new();
        write_unsigned_relay(&mut out, self);
        let blank: [u8; 64] = [0u8; 64];
        assert(blank@ =~= bytes::zeros(64));
        bytes::append_bytes(&mut out, &blank);
        reveal(put_relay);
        assert(out@ =~= relay_message(self@));
        out
    }

    /// A descriptor of the given time, signed.
    pub fn new(
        id: VerifyingKey,
        external_address: SocketAddr,
        tls_public_key: Vec<u8>,
        last_updated: u64,
        private_id_key: &SigningKey,
    ) -> (r: RelayDescriptor)
        ensures
            r@.id == id@,
            r@.external_address == external_address,
            r@.tls_public_key == tls_public_key@,
            r@.last_updated == last_updated,
            r@.signature == crypto::ed25519_signature(private_id_key@, relay_message(r@)),
            id@ == crypto::ed25519_public(private_id_key@) ==> relay_verifies(r@),
            is_good_under_one(private_id_key@, relay_message(r@)) ==> (relay_verifies(r@) <==> id@
                == crypto::ed25519_public(private_id_key@)),
    {
        let mut d = RelayDescriptor {
            id,
            external_address,
            tls_public_key,
            last_updated,
            signature: [0u8; 64],
        };
        d.sign(private_id_key);
        d
    }

    /// Replaces the signature. If the key is the one that the descriptor names, it verifies.
    pub fn sign(&mut self, private_id_key: &SigningKey)
        ensures
            final(self)@ == (RelayView {
                signature: crypto::ed25519_signature(private_id_key@, relay_message(old(self)@)),
                ..old(self)@
            }),
            old(self)@.id == crypto::ed25519_public(private_id_key@) ==> relay_verifies(
                final(self)@,
            ),
    {
        let encoded = self.message();
        self.signature = private_id_key.sign(encoded.as_slice());
    }

    pub fn verify(&self) -> (r: Result<(), BadSignature>)
        ensures
            r is Ok <==> relay_verifies(self@),
    {
        let encoded = self.message();
        if self.id.verify(encoded.as_slice(), &self.signature) {
            Ok(())
        } else {
            Err(BadSignature)
        }
    }
}

/// What a hidden service publishes about itself.
#[derive(Debug)]
pub struct HiddenServiceDescriptor {
    pub identity_key: VerifyingKey,
    pub introduction_points: Vec<SocketAddr>,
    pub signature: [u8; 64],
}

/// A `HiddenServiceDescriptor` as a mathematical value.
pub ghost struct ServiceView {
    pub identity_key: Seq<u8>,
    pub introduction_points: Seq<SocketAddr>,
    pub signature: Seq<u8>,
}

impl View for HiddenServiceDescriptor {
    type V = ServiceView;

    open spec fn view(&self) -> ServiceView {
        ServiceView {
            identity_key: self.identity_key@,
            introduction_points: self.introduction_points@,
            signature: self.signature@,
        }
    }
}

/// A copy of a list of addresses.
pub fn copy_addrs(list: &[SocketAddr]) -> (r: Vec<SocketAddr>)
    ensures
        r@ == list@,
{
    let mut r: Vec<SocketAddr> = Vec::new();
    let n: usize = list.len();
    let mut i: usize = 0;
    while i < n
        invariant
            n == list@.len(),
            i <= n,
            r@ == list@.take(i as int),
        decreases n - i,
    {
        r.push(list[i]);
        i = i + 1;
        assert(r@ =~= list@.take(i as int));
    }
    assert(r@ =~= list@);
    r
}

impl Clone for HiddenServiceDescriptor {
    fn clone(&self) -> (r: HiddenServiceDescriptor)
        ensures
            r@ == self@,
    {
        HiddenServiceDescriptor {
            identity_key: self.identity_key,
            introduction_points: copy_addrs(self.introduction_points.as_slice()),
            signature: self.signature,
        }
    }
}

/// Addresses one after the other.
pub open spec fn put_addrs(list: Seq<SocketAddr>) -> Seq<u8>
    decreases list.len(),
{
    if list.len() == 0 {
        Seq::empty()
    } else {
        put_addrs(list.drop_last()) + put_addr(list.last())
    }
}

/// The bytes that a hidden service signs: its descriptor with a signature of zeros.
pub open spec fn service_message(v: ServiceView) -> Seq<u8> {
    codec::put_bytes(v.identity_key) + codec::put_u64(v.introduction_points.len() as u64)
        + put_addrs(v.introduction_points) + bytes::zeros(64)
}

/// Whether the descriptor is signed by the key that it names.
pub open spec fn service_verifies(v: ServiceView) -> bool {
    crypto::ed25519_verifies(v.identity_key, service_message(v), v.signature)
}

fn write_addrs(out: &mut Vec<u8>, list: &[SocketAddr])
    ensures
        final(out)@ == old(out)@ + put_addrs(list@),
{
    let n: usize = list.len();
    let mut i: usize = 0;
    assert(out@ =~= old(out)@ + put_addrs(list@.take(0)));
    while i < n
        invariant
            n == list@.len(),
            i <= n,
            out@ == old(out)@ + put_addrs(list@.take(i as int)),
        decreases n - i,
    {
        write_addr(out, list[i]);
        i = i + 1;
        assert(list@.take(i as int).drop_last() =~= list@.take(i - 1));
        assert(out@ =~= old(out)@ + put_addrs(list@.take(i as int)));
    }
    assert(list@.take(n as int) =~= list@);
}

proof fn lemma_put_addrs_first(list: Seq<SocketAddr>)
    requires
        list.len() > 0,
    ensures
        put_addrs(list) == put_addr(list[0]) + put_addrs(list.drop_first()),
    decreases list.len(),
{
    let rest = list.drop_first();
    if list.len() == 1 {
        assert(list.drop_last() =~= Seq::empty());
        assert(rest =~= Seq::empty());
        assert(put_addrs(list) =~= put_addr(list[0]) + put_addrs(rest));
    } else {
        lemma_put_addrs_first(list.drop_last());
        assert(list.drop_last().drop_first() =~= rest.drop_last());
        assert(put_addrs(list) =~= put_addr(list[0]) + put_addrs(rest));
    }
}

/// Two addresses with the same encoding, whatever follows it, are the same, and so is what follows.
proof fn lemma_put_addr_injective(a: SocketAddr, b: SocketAddr, after_a: Seq<u8>, after_b: Seq<u8>)
    requires
        addr_is_plain(a),
        addr_is_plain(b),
        put_addr(a) + after_a == put_addr(b) + after_b,
    ensures
        a == b,
        after_a == after_b,
{
    lemma_addr_round_trip(a, after_a);
    lemma_addr_round_trip(b, after_b);
}

/// Two lists of the same length with the same encoding, whatever follows it, are the same.
proof fn lemma_put_addrs_injective(
    a: Seq<SocketAddr>,
    b: Seq<SocketAddr>,
    after_a: Seq<u8>,
    after_b: Seq<u8>,
)
    requires
        a.len() == b.len(),
        forall|i: int| 0 <= i < a.len() ==> addr_is_plain(#[trigger] a[i]),
        forall|i: int| 0 <= i < b.len() ==> addr_is_plain(#[trigger] b[i]),
        put_addrs(a) + after_a == put_addrs(b) + after_b,
    ensures
        a == b,
    decreases a.len(),
{
    if a.len() == 0 {
        assert(a =~= b);
    } else {
        let ra = a.drop_first();
        let rb = b.drop_first();
        lemma_put_addrs_first(a);
        lemma_put_addrs_first(b);
        let ta = put_addrs(ra) + after_a;
        let tb = put_addrs(rb) + after_b;
        assert(put_addrs(a) + after_a =~= put_addr(a[0]) + ta);
        assert(put_addrs(b) + after_b =~= put_addr(b[0]) + tb);
        lemma_put_addr_injective(a[0], b[0], ta, tb);
        assert forall|i: int| 0 <= i < ra.len() implies addr_is_plain(#[trigger] ra[i]) by {
            assert(ra[i] == a[i + 1]);
        }
        assert forall|i: int| 0 <= i < rb.len() implies addr_is_plain(#[trigger] rb[i]) by {
            assert(rb[i] == b[i + 1]);
        }
        lemma_put_addrs_injective(ra, rb, after_a, after_b);
        assert(a =~= seq![a[0]] + ra);
        assert(b =~= seq![b[0]] + rb);
    }
}

/// Whether the encoding of a service's descriptor holds all of it.
pub open spec fn service_is_plain(v: ServiceView) -> bool {
    v.identity_key.len() <= u64::MAX && v.introduction_points.len() <= u64::MAX && forall|i: int|
        0 <= i < v.introduction_points.len() ==> addr_is_plain(#[trigger] v.introduction_points[i])
}

/// The signature of a service covers its key and its introduction points: what is signed fixes them.
pub proof fn law_signature_covers_the_service(a: ServiceView, b: ServiceView)
    requires
        service_is_plain(a),
        service_is_plain(b),
        service_message(a) == service_message(b),
    ensures
        a.identity_key == b.identity_key,
        a.introduction_points == b.introduction_points,
{
    let na = a.introduction_points.len() as u64;
    let nb = b.introduction_points.len() as u64;
    let z = bytes::zeros(64);
    let ta = put_addrs(a.introduction_points) + z;
    let tb = put_addrs(b.introduction_points) + z;
    let ua = codec::put_u64(na) + ta;
    let ub = codec::put_u64(nb) + tb;
    bytes::lemma_regroup(
        codec::put_bytes(a.identity_key),
        codec::put_u64(na),
        put_addrs(a.introduction_points),
        z,
    );
    bytes::lemma_regroup(
        codec::put_bytes(b.identity_key),
        codec::put_u64(nb),
        put_addrs(b.introduction_points),
        z,
    );
    codec::lemma_bytes_round_trip(a.identity_key, ua);
    codec::lemma_bytes_round_trip(b.identity_key, ub);
    codec::lemma_u64_round_trip(na, ta);
    codec::lemma_u64_round_trip(nb, tb);
    lemma_put_addrs_injective(a.introduction_points, b.introduction_points, z, z);
}

impl HiddenServiceDescriptor {
    fn message(&self) -> (r: Vec<u8>)
        ensures
            r@ == service_message(self@),
    {
        let mut out: Vec<u8> = Vec::new();
        write_key(&mut out, &self.identity_key);
        codec::write_u64(&mut out, self.introduction_points.len() as u64);
        write_addrs(&mut out, self.introduction_points.as_slice());
        let blank: [u8; 64] = [0u8; 64];
        assert(blank@ =~= bytes::zeros(64));
        bytes::append_bytes(&mut out, &blank);
        assert(out@ =~= service_message(self@));
        out
    }

    /// A signed descriptor.
    pub fn new(
        identity_key: VerifyingKey,
        introduction_points: Vec<SocketAddr>,
        private_id_key: &SigningKey,
    ) -> (r: HiddenServiceDescriptor)
        ensures
            r@.identity_key == identity_key@,
            r@.introduction_points == introduction_points@,
            r@.signature == crypto::ed25519_signature(private_id_key@, service_message(r@)),
            identity_key@ == crypto::ed25519_public(private_id_key@) ==> service_verifies(r@),
    {
        let mut d = HiddenServiceDescriptor {
            identity_key,
            introduction_points,
            signature: [0u8; 64],
        };
        d.sign(private_id_key);
        d
    }

    /// Replaces the signature. If the key is the one that the descriptor names, it verifies.
    pub fn sign(&mut self, private_id_key: &SigningKey)
        ensures
            final(self)@ == (ServiceView {
                signature: crypto::ed25519_signature(private_id_key@, service_message(old(self)@)),
                ..old(self)@
            }),
            old(self)@.identity_key == crypto::ed25519_public(private_id_key@) ==> service_verifies(
                final(self)@,
            ),
    {
        let encoded = self.message();
        self.signature = private_id_key.sign(encoded.as_slice());
    }

    pub fn verify(&self) -> (r: Result<(), BadSignature>)
        ensures
            r is Ok <==> service_verifies(self@),
    {
        let encoded = self.message();
        if self.identity_key.verify(encoded.as_slice(), &self.signature) {
            Ok(())
        } else {
            Err(BadSignature)
        }
    }
}

/// A relay that was gossiped with.
#[derive(Debug)]
pub struct PeerInfo {
    pub descriptor: RelayDescriptor,
    pub last_seen: u64,
}

/// A `PeerInfo` as a mathematical value.
pub ghost struct PeerView {
    pub descriptor: RelayView,
    pub last_seen: u64,
}

impl View for PeerInfo {
    type V = PeerView;

    open spec fn view(&self) -> PeerView {
        PeerView { descriptor: self.descriptor@, last_seen: self.last_seen }
    }
}

impl Clone for PeerInfo {
    fn clone(&self) -> (r: PeerInfo)
        ensures
            r@ == self@,
    {
        PeerInfo { descriptor: self.descriptor.clone(), last_seen: self.last_seen }
    }
}

impl PeerInfo {
    pub fn new(descriptor: RelayDescriptor, last_seen: u64) -> (r: PeerInfo)
        ensures
            r@ == (PeerView { descriptor: descriptor@, last_seen }),
    {
        PeerInfo { descriptor, last_seen }
    }
}

} // verus!
