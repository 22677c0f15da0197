//! Internet addresses as plain values, and the text forms in which they are written.

use crate::text;
use vstd::prelude::*;

verus! {

/// An IPv4 address, by its four octets.
#[derive(Debug, Clone, Copy, PartialEq, Eq, Structural)]
pub struct Ipv4Addr {
    pub a: u8,
    pub b: u8,
    pub c: u8,
    pub d: u8,
}

/// An IPv6 address, by its eight segments.
#[derive(Debug, Clone, Copy, PartialEq, Eq, Structural)]
pub struct Ipv6Addr {
    pub a: u16,
    pub b: u16,
    pub c: u16,
    pub d: u16,
    pub e: u16,
    pub f: u16,
    pub g: u16,
    pub h: u16,
}

/// An address and a port.
#[derive(Debug, Clone, Copy, PartialEq, Eq, Structural)]
pub enum SocketAddr {
    V4 { ip: Ipv4Addr, port: u16 },
    V6 { ip6: Ipv6Addr, port: u16, flowinfo: u32, scope_id: u32 },
}

impl Ipv4Addr {
    pub fn new(a: u8, b: u8, c: u8, d: u8) -> (r: Ipv4Addr)
        ensures
            r == (Ipv4Addr { a, b, c, d }),
    {
        Ipv4Addr { a, b, c, d }
    }

    /// The address as a number of 32 bits, the first octet highest.
    pub open spec fn number(self) -> nat {
        (self.a as nat) * 0x100_0000 + (self.b as nat) * 0x1_0000 + (self.c as nat) * 0x100 + (
        self.d as nat)
    }

    /// The four octets in the order in which they are written and sent.
    pub open spec fn octets(self) -> Seq<u8> {
        seq![self.a, self.b, self.c, self.d]
    }

    pub fn to_u32(self) -> (r: u32)
        ensures
            r as nat == self.number(),
    {
        (self.a as u32) * 0x100_0000 + (self.b as u32) * 0x1_0000 + (self.c as u32) * 0x100 + (
        self.d as u32)
    }
}

/// Whether `addr` lies in the block of `net` with the given prefix length: whether the two agree
/// in their first `prefix` bits. A prefix length over 32 counts as 32.
pub open spec fn in_cidr(addr: Ipv4Addr, net: Ipv4Addr, prefix: u8) -> bool {
    let low = if prefix < 32 {
        (32 - prefix) as nat
    } else {
        0
    };
    addr.number() / vstd::arithmetic::power2::pow2(low) == net.number() / vstd::arithmetic::power2::pow2(low)
}

pub fn ipv4_in_cidr(addr: Ipv4Addr, net: Ipv4Addr, prefix: u8) -> (r: bool)
    ensures
        r == in_cidr(addr, net, prefix),
{
    if prefix == 0 {
        proof {
            vstd::arithmetic::power2::lemma2_to64();
            vstd::arithmetic::div_mod::lemma_basic_div(addr.number() as int, vstd::arithmetic::power2::pow2(32) as int);
            vstd::arithmetic::div_mod::lemma_basic_div(net.number() as int, vstd::arithmetic::power2::pow2(32) as int);
        }
        return true;
    }
    let low: u32 = if prefix < 32 {
        (32 - prefix) as u32
    } else {
        0
    };
    let x: u32 = addr.to_u32();
    let y: u32 = net.to_u32();
    proof {
        vstd::bits::lemma_u32_shr_is_div(x, low);
        vstd::bits::lemma_u32_shr_is_div(y, low);
    }
    (x >> low) == (y >> low)
}

/// The octet that `s` names in decimal, without sign or leading zeros.
pub open spec fn parse_octet(s: Seq<char>) -> Option<u8> {
    if s.len() > 0 && s[0] != '+' && (s.len() == 1 || s[0] != '0') {
        match text::parse_number(s, 255) {
            Some(v) => Some(v as u8),
            None => None,
        }
    } else {
        None
    }
}

/// The address that `s` names as four octets with dots between them.
pub open spec fn parse_ipv4(s: Seq<char>) -> Option<Ipv4Addr> {
    let i = text::find_from(s, '.', 0);
    let j = text::find_from(s, '.', i + 1);
    let k = text::find_from(s, '.', j + 1);
    if k >= s.len() {
        None
    } else {
        match (
            parse_octet(s.subrange(0, i)),
            parse_octet(s.subrange(i + 1, j)),
            parse_octet(s.subrange(j + 1, k)),
            parse_octet(s.subrange(k + 1, s.len() as int)),
        ) {
            (Some(a), Some(b), Some(c), Some(d)) => Some(Ipv4Addr { a, b, c, d }),
            _ => None,
        }
    }
}

fn read_octet(s: &[char]) -> (r: Option<u8>)
    ensures
        r == parse_octet(s@),
{
    let n: usize = s.len();
    if n == 0 || s[0] == '+' || (n > 1 && s[0] == '0') {
        return None;
    }
    match text::read_number(s, 255) {
        Some(v) => Some(v as u8),
        None => None,
    }
}

/// Reads an IPv4 address.
pub fn read_ipv4(s: &[char]) -> (r: Option<Ipv4Addr>)
    ensures
        r == parse_ipv4(s@),
{
    let n: usize = s.len();
    proof {
        text::lemma_find_from(s@, '.', 0);
    }
    let i: usize = text::position_from(s, '.', 0);
    if i == n {
        return None;
    }
    let j: usize = text::position_from(s, '.', i + 1);
    if j == n {
        return None;
    }
    let k: usize = text::position_from(s, '.', j + 1);
    if k == n {
        return None;
    }
    let a = read_octet(vstd::slice::slice_subrange(s, 0, i));
    let b = read_octet(vstd::slice::slice_subrange(s, i + 1, j));
    let c = read_octet(vstd::slice::slice_subrange(s, j + 1, k));
    let d = read_octet(vstd::slice::slice_subrange(s, k + 1, n));
    match (a, b, c, d) {
        (Some(a), Some(b), Some(c), Some(d)) => Some(Ipv4Addr { a, b, c, d }),
        _ => None,
    }
}

/// `a.b.c.d`.
pub open spec fn ipv4_text(ip: Ipv4Addr) -> Seq<char> {
    text::decimal(ip.a as nat) + seq!['.'] + text::decimal(ip.b as nat) + seq!['.'] + text::decimal(ip.c as nat)
        + seq!['.'] + text::decimal(ip.d as nat)
}

/// Appends an address in its text form.
pub fn append_ipv4(target: &mut Vec<char>, ip: Ipv4Addr)
    ensures
        final(target)@ == old(target)@ + ipv4_text(ip),
{
    text::append_decimal(target, ip.a as u64);
    target.push('.');
    text::append_decimal(target, ip.b as u64);
    target.push('.');
    text::append_decimal(target, ip.c as u64);
    target.push('.');
    text::append_decimal(target, ip.d as u64);
    assert(target@ =~= old(target)@ + ipv4_text(ip));
}

proof fn lemma_octet_round_trip(x: u8)
    ensures
        parse_octet(text::decimal(x as nat)) == Some(x),
        forall|i: int|
            0 <= i < text::decimal(x as nat).len() ==> #[trigger] text::decimal(x as nat)[i] != '.',
{
    text::lemma_decimal_value_of_decimal(x as nat);
    text::law_decimal_round_trip(x as nat, 255);
    let s = text::decimal(x as nat);
    assert(text::is_digit(s[0]));
    if x > 0 {
        text::lemma_decimal_first_digit(x as nat);
    }
    assert forall|i: int| 0 <= i < s.len() implies #[trigger] s[i] != '.' by {
        assert(text::is_digit(s[i]));
    }
}

/// Where the first dot behind a stretch without dots stands.
proof fn lemma_next_dot(s: Seq<char>, from: int, dot: int)
    requires
        0 <= from <= dot < s.len(),
        s[dot] == '.',
        forall|i: int| from <= i < dot ==> s[i] != '.',
    ensures
        text::find_from(s, '.', from) == dot,
{
    text::lemma_find_from(s, '.', from);
}

/// An address is read back from its text.
pub proof fn law_ipv4_text_round_trip(ip: Ipv4Addr)
    ensures
        parse_ipv4(ipv4_text(ip)) == Some(ip),
{
    lemma_octet_round_trip(ip.a);
    lemma_octet_round_trip(ip.b);
    lemma_octet_round_trip(ip.c);
    lemma_octet_round_trip(ip.d);
    let a = text::decimal(ip.a as nat);
    let b = text::decimal(ip.b as nat);
    let c = text::decimal(ip.c as nat);
    let d = text::decimal(ip.d as nat);
    let s = ipv4_text(ip);
    let i = a.len() as int;
    let j = i + 1 + b.len();
    let k = j + 1 + c.len();
    assert(s.subrange(0, i) =~= a);
    assert(s.subrange(i + 1, j) =~= b);
    assert(s.subrange(j + 1, k) =~= c);
    assert(s.subrange(k + 1, s.len() as int) =~= d);
    assert forall|x: int| i + 1 <= x < j implies s[x] != '.' by {
        assert(s[x] == b[x - i - 1]);
    }
    assert forall|x: int| j + 1 <= x < k implies s[x] != '.' by {
        assert(s[x] == c[x - j - 1]);
    }
    assert forall|x: int| 0 <= x < i implies s[x] != '.' by {
        assert(s[x] == a[x]);
    }
    lemma_next_dot(s, 0, i);
    lemma_next_dot(s, i + 1, j);
    lemma_next_dot(s, j + 1, k);
}

/// Whether an address that a relay advertises is one that no other node can dial: an unspecified
/// address.
pub open spec fn undialable(address: Seq<char>) -> bool {
    text::starts_with(address, "0.0.0.0"@) || text::starts_with(address, "[::]"@)
        || text::starts_with(address, "::"@)
}

pub fn is_undialable(address: &str) -> (r: bool)
    ensures
        r == undialable(address@),
{
    let chars = text::chars_of(address);
    let v4 = text::chars_of("0.0.0.0");
    let bracketed = text::chars_of("[::]");
    let v6 = text::chars_of("::");
    text::begins_with(chars.as_slice(), v4.as_slice()) || text::begins_with(
        chars.as_slice(),
        bracketed.as_slice(),
    ) || text::begins_with(chars.as_slice(), v6.as_slice())
}

/// Digits without a leading zero are how the number that they spell is written.
proof fn lemma_digits_are_decimal(s: Seq<char>)
    requires
        s.len() > 0,
        text::all_digits(s),
        s.len() == 1 || s[0] != '0',
    ensures
        text::decimal(text::decimal_value(s)) == s,
        s[0] != '0' ==> text::decimal_value(s) > 0,
    decreases s.len(),
{
    let head = s.drop_last();
    let v = text::decimal_value(s);
    assert(text::is_digit(s[s.len() - 1]));
    reveal_with_fuel(text::decimal_value, 2);
    if s.len() == 1 {
        assert(head =~= Seq::empty());
        assert(text::decimal_value(head) == 0);
        assert(text::decimal(v) =~= s);
    } else {
        assert forall|i: int| 0 <= i < head.len() implies text::is_digit(#[trigger] head[i]) by {
            assert(head[i] == s[i]);
        }
        lemma_digits_are_decimal(head);
        let h = text::decimal_value(head);
        assert(head[0] == s[0]);
        assert(h > 0);
        assert(v == h * 10 + text::digit_value(s.last()));
        assert(v / 10 == h && v % 10 == text::digit_value(s.last()));
        assert(text::decimal(v) =~= s);
    }
}

proof fn lemma_octet_text(s: Seq<char>, x: u8)
    requires
        parse_octet(s) == Some(x),
    ensures
        s == text::decimal(x as nat),
{
    assert(text::unsigned(s) == s);
    lemma_digits_are_decimal(s);
}

/// An address has one text: whatever is read as an address is exactly how that address is written.
pub proof fn law_ipv4_text_is_unique(s: &[char], r: Option<Ipv4Addr>)
    requires
        call_ensures(read_ipv4, (s,), r),
    ensures
        match r {
            Some(ip) => s@ == ipv4_text(ip),
            None => forall|ip: Ipv4Addr| s@ != #[trigger] ipv4_text(ip),
        },
{
    let t = s@;
    match r {
        Some(ip) => {
            let i = text::find_from(t, '.', 0);
            text::lemma_find_from(t, '.', 0);
            let j = text::find_from(t, '.', i + 1);
            if i < t.len() {
                text::lemma_find_from(t, '.', i + 1);
            }
            let k = text::find_from(t, '.', j + 1);
            if j < t.len() {
                text::lemma_find_from(t, '.', j + 1);
            }
            lemma_octet_text(t.subrange(0, i), ip.a);
            lemma_octet_text(t.subrange(i + 1, j), ip.b);
            lemma_octet_text(t.subrange(j + 1, k), ip.c);
            lemma_octet_text(t.subrange(k + 1, t.len() as int), ip.d);
            assert(t =~= ipv4_text(ip));
        },
        None => {
            assert forall|ip: Ipv4Addr| t != #[trigger] ipv4_text(ip) by {
                law_ipv4_text_round_trip(ip);
            }
        },
    }
}

/// The bit `i` of an address, the highest bit of its first octet first.
pub open spec fn address_bit(ip: Ipv4Addr, i: int) -> int {
    let octet = if i < 8 {
        ip.a
    } else if i < 16 {
        ip.b
    } else if i < 24 {
        ip.c
    } else {
        ip.d
    };
    (octet as int / vstd::arithmetic::power2::pow2((7 - i % 8) as nat) as int) % 2
}

proof fn lemma_bits_of_number(ip: Ipv4Addr, i: u32)
    requires
        i < 32,
    ensures
        (ip.number() as int / vstd::arithmetic::power2::pow2((31 - i) as nat) as int) % 2
            == address_bit(ip, i as int),
{
    let n: u32 = ip.number() as u32;
    let a: u32 = ip.a as u32;
    let b: u32 = ip.b as u32;
    let c: u32 = ip.c as u32;
    let d: u32 = ip.d as u32;
    let low: u32 = (31 - i) as u32;
    let small: u32 = (7 - i % 8) as u32;
    let octet: u32 = if i < 8 {
        a
    } else if i < 16 {
        b
    } else if i < 24 {
        c
    } else {
        d
    };
    assert(n == a * 0x100_0000 + b * 0x1_0000 + c * 0x100 + d);
    assert(((a * 0x100_0000 + b * 0x1_0000 + c * 0x100 + d) as u32 >> ((31 - i) as u32)) % 2 == ((
    if i < 8 {
        a
    } else if i < 16 {
        b
    } else if i < 24 {
        c
    } else {
        d
    }) >> ((7 - i % 8) as u32)) % 2) by (bit_vector)
        requires
            i < 32,
            a < 256,
            b < 256,
            c < 256,
            d < 256,
    ;
    vstd::bits::lemma_u32_shr_is_div(n, low);
    vstd::bits::lemma_u32_shr_is_div(octet, small);
}

/// A block holds the addresses that agree with it in the bits of its prefix: the empty prefix leaves
/// all free, every bit more must agree too, and beyond 32 there is nothing more to agree in.
pub proof fn law_every_bit_of_a_prefix_counts(ip: Ipv4Addr, net: Ipv4Addr, prefix: u8, r: bool, more: bool)
    requires
        prefix < 255,
        call_ensures(ipv4_in_cidr, (ip, net, prefix), r),
        call_ensures(ipv4_in_cidr, (ip, net, (prefix + 1) as u8), more),
    ensures
        prefix == 0 ==> r,
        prefix < 32 ==> more == (r && address_bit(ip, prefix as int) == address_bit(
            net,
            prefix as int,
        )),
        prefix >= 32 ==> more == r,
{
    if prefix == 0 {
        vstd::arithmetic::power2::lemma2_to64();
        vstd::arithmetic::div_mod::lemma_basic_div(
            ip.number() as int,
            vstd::arithmetic::power2::pow2(32) as int,
        );
        vstd::arithmetic::div_mod::lemma_basic_div(
            net.number() as int,
            vstd::arithmetic::power2::pow2(32) as int,
        );
    }
    if prefix < 32 {
        let p = prefix as int;
        lemma_bits_of_number(ip, prefix as u32);
        lemma_bits_of_number(net, prefix as u32);
        let k = (31 - p) as nat;
        let q = vstd::arithmetic::power2::pow2(k) as int;
        vstd::arithmetic::power2::lemma_pow2_pos(k);
        vstd::arithmetic::power2::lemma_pow2_unfold((k + 1) as nat);
        assert(vstd::arithmetic::power2::pow2((32 - p) as nat) == 2 * q);
        let x = ip.number() as int;
        let y = net.number() as int;
        vstd::arithmetic::div_mod::lemma_div_denominator(x, q, 2);
        vstd::arithmetic::div_mod::lemma_div_denominator(y, q, 2);
        assert(x / (q * 2) == (x / q) / 2);
        assert(y / (q * 2) == (y / q) / 2);
    }
}

} // verus!
