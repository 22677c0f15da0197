//! Byte strings: integers in a fixed number of bytes, comparison, and copies.

use vstd::prelude::*;

verus! {

/// The number of values that `n` bytes can take.
pub open spec fn byte_span(n: nat) -> nat
    decreases n,
{
    if n == 0 {
        1
    } else {
        256 * byte_span((n - 1) as nat)
    }
}

/// `x` in `n` bytes, lowest byte first.
pub open spec fn le(x: nat, n: nat) -> Seq<u8>
    decreases n,
{
    if n == 0 {
        Seq::empty()
    } else {
        seq![(x % 256) as u8] + le(x / 256, (n - 1) as nat)
    }
}

/// The number that the bytes of `s` spell, lowest byte first.
pub open spec fn from_le(s: Seq<u8>) -> nat
    decreases s.len(),
{
    if s.len() == 0 {
        0
    } else {
        s[0] as nat + 256 * from_le(s.drop_first())
    }
}

/// `x` in two bytes, highest byte first.
pub open spec fn be16(x: u16) -> Seq<u8> {
    seq![(x / 256) as u8, (x % 256) as u8]
}

/// The number in the two bytes of `s` at `i`, highest byte first.
pub open spec fn be16_at(s: Seq<u8>, i: int) -> u16 {
    ((s[i] as nat) * 256 + s[i + 1] as nat) as u16
}

/// `x` in four bytes, highest byte first; of a larger `x`, the lowest four bytes.
pub open spec fn be32(x: nat) -> Seq<u8> {
    seq![
        ((x / 16777216) % 256) as u8,
        ((x / 65536) % 256) as u8,
        ((x / 256) % 256) as u8,
        (x % 256) as u8,
    ]
}

/// `n` zero bytes.
pub open spec fn zeros(n: nat) -> Seq<u8> {
    Seq::new(n, |i: int| 0u8)
}

pub proof fn lemma_le_len(x: nat, n: nat)
    ensures
        le(x, n).len() == n,
    decreases n,
{
    if n > 0 {
        lemma_le_len(x / 256, (n - 1) as nat);
    }
}

/// Reading back a number that fits in `n` bytes gives the number.
pub proof fn lemma_from_le_of_le(x: nat, n: nat)
    requires
        x < byte_span(n),
    ensures
        from_le(le(x, n)) == x,
    decreases n,
{
    if n > 0 {
        lemma_from_le_of_le(x / 256, (n - 1) as nat);
        assert(le(x, n).drop_first() =~= le(x / 256, (n - 1) as nat));
    }
}

pub proof fn lemma_byte_spans()
    ensures
        byte_span(2) == 0x1_0000,
        byte_span(4) == 0x1_0000_0000,
        byte_span(8) == 0x1_0000_0000_0000_0000,
{
    reveal_with_fuel(byte_span, 9);
}

/// Three strings and what follows them, grouped from the right.
pub proof fn lemma_regroup(a: Seq<u8>, b: Seq<u8>, c: Seq<u8>, rest: Seq<u8>)
    ensures
        a + b + c + rest == a + (b + (c + rest)),
{
    assert(a + b + c + rest =~= a + (b + (c + rest)));
}

/// Whether two byte strings are the same.
pub fn bytes_equal(a: &[u8], b: &[u8]) -> (r: bool)
    ensures
        r == (a@ == b@),
{
    if a.len() != b.len() {
        return false;
    }
    let n: usize = a.len();
    let mut i: usize = 0;
    while i < n
        invariant
            n == a@.len(),
            n == b@.len(),
            i <= n,
            forall|j: int| 0 <= j < i ==> a@[j] == b@[j],
        decreases n - i,
    {
        if a[i] != b[i] {
            return false;
        }
        i = i + 1;
    }
    assert(a@ =~= b@);
    true
}

/// Appends `other` to `target`.
pub fn append_bytes(target: &mut Vec<u8>, other: &[u8])
    ensures
        final(target)@ == old(target)@ + other@,
{
    target.extend_from_slice(other);
    assert(target@ =~= old(target)@ + other@);
}

/// A copy of the bytes `from..to` of `s`.
pub fn copy_range(s: &[u8], from: usize, to: usize) -> (r: Vec<u8>)
    requires
        from <= to <= s@.len(),
    ensures
        r@ == s@.subrange(from as int, to as int),
{
    vstd::slice::slice_to_vec(vstd::slice::slice_subrange(s, from, to))
}

/// Reads the number in two bytes.
pub fn read_be16(s: &[u8], i: usize) -> (r: u16)
    requires
        i + 1 < s@.len(),
        i < usize::MAX,
    ensures
        r == be16_at(s@, i as int),
{
    (s[i] as u16) * 256 + (s[i + 1] as u16)
}

/// Appends a number in two bytes.
pub fn push_be16(out: &mut Vec<u8>, x: u16)
    ensures
        final(out)@ == old(out)@ + be16(x),
{
    out.push((x / 256) as u8);
    out.push((x % 256) as u8);
    assert(out@ =~= old(out)@ + be16(x));
}

/// The first 32 bytes of `s`.
pub fn array_32(s: &[u8]) -> (r: [u8; 32])
    requires
        s@.len() >= 32,
    ensures
        r@ == s@.subrange(0, 32),
{
    let mut r: [u8; 32] = [0u8; 32];
    let mut i: usize = 0;
    while i < 32
        invariant
            i <= 32,
            s@.len() >= 32,
            forall|j: int| 0 <= j < i ==> r@[j] == s@[j],
        decreases 32 - i,
    {
        r[i] = s[i];
        i = i + 1;
    }
    assert(r@ =~= s@.subrange(0, 32));
    r
}

/// The first 64 bytes of `s`.
pub fn array_64(s: &[u8]) -> (r: [u8; 64])
    requires
        s@.len() >= 64,
    ensures
        r@ == s@.subrange(0, 64),
{
    let mut r: [u8; 64] = [0u8; 64];
    let mut i: usize = 0;
    while i < 64
        invariant
            i <= 64,
            s@.len() >= 64,
            forall|j: int| 0 <= j < i ==> r@[j] == s@[j],
        decreases 64 - i,
    {
        r[i] = s[i];
        i = i + 1;
    }
    assert(r@ =~= s@.subrange(0, 64));
    r
}

/// The first 20 bytes of `s`.
pub fn array_20(s: &[u8]) -> (r: [u8; 20])
    requires
        s@.len() >= 20,
    ensures
        r@ == s@.subrange(0, 20),
{
    let mut r: [u8; 20] = [0u8; 20];
    let mut i: usize = 0;
    while i < 20
        invariant
            i <= 20,
            s@.len() >= 20,
            forall|j: int| 0 <= j < i ==> r@[j] == s@[j],
        decreases 20 - i,
    {
        r[i] = s[i];
        i = i + 1;
    }
    assert(r@ =~= s@.subrange(0, 20));
    r
}

} // verus!
