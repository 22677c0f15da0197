//! Text forms of bytes: base32 and UTF-8.

use crate::text;
use vstd::prelude::*;

verus! {

/// The digit of the RFC 4648 base32 alphabet with value `v`.
pub open spec fn base32_digit(v: nat) -> char {
    if v < 26 {
        (v + 65) as char
    } else {
        (v + 24) as char
    }
}

/// The value of a character as a base32 digit, in capitals or small letters. Padding counts as
/// zero.
pub open spec fn base32_value(c: char) -> Option<nat> {
    if 'A' <= c <= 'Z' {
        Some((c as u32 - 65) as nat)
    } else if 'a' <= c <= 'z' {
        Some((c as u32 - 97) as nat)
    } else if '2' <= c <= '7' {
        Some((c as u32 - 24) as nat)
    } else if c == '=' {
        Some(0)
    } else {
        None
    }
}

/// The bit `i` of a byte string, highest bit of each byte first; zero behind the end.
pub open spec fn data_bit(data: Seq<u8>, i: int) -> nat {
    if i / 8 < data.len() {
        (data[i / 8] as nat / vstd::arithmetic::power2::pow2((7 - i % 8) as nat)) % 2
    } else {
        0
    }
}

/// The number that five bits spell, beginning at bit `i`.
pub open spec fn five_bits(data: Seq<u8>, i: int) -> nat {
    16 * data_bit(data, i) + 8 * data_bit(data, i + 1) + 4 * data_bit(data, i + 2) + 2 * data_bit(
        data,
        i + 3,
    ) + data_bit(data, i + 4)
}

/// Bytes in base32 without padding: one digit for every five bits.
pub open spec fn base32_encoded(data: Seq<u8>) -> Seq<char> {
    Seq::new((8 * data.len() + 4) / 5, |k: int| base32_digit(five_bits(data, 5 * k)))
}

/// The bit `i` of a base32 text, five bits for every digit.
#[verifier::opaque]
pub open spec fn text_bit(s: Seq<char>, i: int) -> nat {
    match base32_value(s[i / 5]) {
        Some(v) => (v / vstd::arithmetic::power2::pow2((4 - i % 5) as nat)) % 2,
        None => 0,
    }
}

/// The byte that eight bits of a base32 text spell, beginning at bit `i`.
pub open spec fn eight_bits(s: Seq<char>, i: int) -> u8 {
    (128 * text_bit(s, i) + 64 * text_bit(s, i + 1) + 32 * text_bit(s, i + 2) + 16 * text_bit(
        s,
        i + 3,
    ) + 8 * text_bit(s, i + 4) + 4 * text_bit(s, i + 5) + 2 * text_bit(s, i + 6) + text_bit(
        s,
        i + 7,
    )) as u8
}

/// How many `=` end the text, behind the `k` that are counted already; no more than six count.
pub open spec fn trailing_padding(s: Seq<char>, k: nat) -> nat
    decreases 6 - k,
{
    if k < 6 && k < s.len() && s[s.len() - 1 - k] == '=' {
        trailing_padding(s, k + 1)
    } else {
        k
    }
}

pub proof fn lemma_trailing_padding(s: Seq<char>, k: nat)
    requires
        k <= 6,
    ensures
        k <= trailing_padding(s, k) <= 6,
    decreases 6 - k,
{
    if k < 6 && k < s.len() && s[s.len() - 1 - k] == '=' {
        lemma_trailing_padding(s, k + 1);
    }
}

/// The bytes that a base32 text stands for, if every character of it is a digit or padding. Bits
/// that fill no byte are dropped.
pub open spec fn base32_decoded(s: Seq<char>) -> Option<Seq<u8>> {
    if forall|i: int| 0 <= i < s.len() ==> base32_value(#[trigger] s[i]) is Some {
        Some(
            Seq::new(
                ((s.len() - trailing_padding(s, 0)) * 5 / 8) as nat,
                |j: int| eight_bits(s, 8 * j),
            ),
        )
    } else {
        None
    }
}

/// `base32::encode` with the RFC 4648 alphabet and no padding.
#[verifier::external_body]
pub(crate) fn encode_base32(data: &[u8; 32]) -> (r: String)
    ensures
        r@ == base32_encoded(data@),
{
    base32::encode(base32::Alphabet::RFC4648 { padding: false }, data)
}

/// `base32::decode` with the RFC 4648 alphabet: small letters are digits too, a character that is
/// no digit spoils the text, `=` counts as a digit of value zero, and up to six of them at the end
/// shorten the result.
#[verifier::external_body]
pub(crate) fn decode_base32(s: &str) -> (r: Option<Vec<u8>>)
    requires
        s@.len() * 5 <= usize::MAX,
    ensures
        match r {
            Some(data) => base32_decoded(s@) == Some(data@),
            None => base32_decoded(s@) is None,
        },
{
    base32::decode(base32::Alphabet::RFC4648 { padding: false }, s)
}

/// What `String::from_utf8_lossy` makes of bytes.
pub uninterp spec fn utf8_lossy(data: Seq<u8>) -> Seq<char>;

/// `String::from_utf8_lossy`: the result depends on the bytes alone, and valid UTF-8 is decoded
/// unchanged. How invalid bytes are replaced is not stated.
#[verifier::external_body]
fn decode_utf8_lossy(data: &[u8]) -> (r: String)
    ensures
        r@ == utf8_lossy(data@),
        vstd::utf8::valid_utf8(data@) ==> r@ == vstd::utf8::decode_utf8(data@),
{
    String::from_utf8_lossy(data).into_owned()
}

/// The text of bytes: what they encode if they are UTF-8, and otherwise what the lossy decoding makes
/// of them.
pub open spec fn lossy_text(data: Seq<u8>) -> Seq<char> {
    if vstd::utf8::valid_utf8(data) {
        vstd::utf8::decode_utf8(data)
    } else {
        utf8_lossy(data)
    }
}

/// Reads bytes as text.
pub fn text_of(data: &[u8]) -> (r: String)
    ensures
        r@ == lossy_text(data@),
{
    decode_utf8_lossy(data)
}

/// A text is read back from its bytes.
pub proof fn law_text_round_trip(s: Seq<char>)
    ensures
        lossy_text(vstd::utf8::encode_utf8(s)) == s,
{
    vstd::utf8::encode_utf8_valid_utf8(s);
    vstd::utf8::encode_utf8_decode_utf8(s);
}

proof fn lemma_text_bit(data: Seq<u8>, i: int)
    requires
        0 <= i < 8 * data.len(),
    ensures
        text_bit(text::lower(base32_encoded(data)), i) == data_bit(data, i),
{
    reveal(text_bit);
    vstd::arithmetic::power2::lemma2_to64();
    let s = text::lower(base32_encoded(data));
    let k = i / 5;
    let b0 = data_bit(data, 5 * k);
    let b1 = data_bit(data, 5 * k + 1);
    let b2 = data_bit(data, 5 * k + 2);
    let b3 = data_bit(data, 5 * k + 3);
    let b4 = data_bit(data, 5 * k + 4);
    let v = five_bits(data, 5 * k);
    assert(v == 16 * b0 + 8 * b1 + 4 * b2 + 2 * b3 + b4);
    assert(s[k] == text::lower_char(base32_digit(v)));
    assert(base32_value(s[k]) == Some(v));
    assert((v / 16) % 2 == b0);
    assert((v / 8) % 2 == b1);
    assert((v / 4) % 2 == b2);
    assert((v / 2) % 2 == b3);
    assert((v / 1) % 2 == b4);
}

/// Bytes come back from their base32 text, also where it is written in small letters.
pub proof fn law_base32_round_trip(data: Seq<u8>)
    ensures
        base32_decoded(text::lower(base32_encoded(data))) == Some(data),
{
    let s = text::lower(base32_encoded(data));
    assert forall|i: int| 0 <= i < s.len() implies base32_value(#[trigger] s[i]) is Some by {
        lemma_digit_is_letter(data, i);
    }
    if s.len() > 0 {
        lemma_digit_is_letter(data, s.len() - 1);
    }
    assert(trailing_padding(s, 0) == 0);
    let out = base32_decoded(s).unwrap();
    assert(out.len() == data.len());
    assert forall|j: int| 0 <= j < data.len() implies #[trigger] out[j] == data[j] by {
        lemma_eight_bits(data, j);
    }
    assert(out =~= data);
}

proof fn lemma_digit_is_letter(data: Seq<u8>, k: int)
    requires
        0 <= k < base32_encoded(data).len(),
    ensures
        base32_value(text::lower(base32_encoded(data))[k]) is Some,
        text::lower(base32_encoded(data))[k] != '=',
{
    let v = five_bits(data, 5 * k);
    assert(v < 32);
    assert(text::lower(base32_encoded(data))[k] == text::lower_char(base32_digit(v)));
}

proof fn lemma_eight_bits(data: Seq<u8>, j: int)
    requires
        0 <= j < data.len(),
    ensures
        eight_bits(text::lower(base32_encoded(data)), 8 * j) == data[j],
{
    let s = text::lower(base32_encoded(data));
    assert forall|t: int| 0 <= t < 8 implies #[trigger] text_bit(s, 8 * j + t) == (data[j] as nat
        / vstd::arithmetic::power2::pow2((7 - t) as nat)) % 2 by {
        lemma_text_bit(data, 8 * j + t);
    }
    vstd::arithmetic::power2::lemma2_to64();
    lemma_bits_of_byte(data[j]);
    let b = data[j] as nat;
    assert(text_bit(s, 8 * j + 0) == (b / 128) % 2);
    assert(text_bit(s, 8 * j + 1) == (b / 64) % 2);
    assert(text_bit(s, 8 * j + 2) == (b / 32) % 2);
    assert(text_bit(s, 8 * j + 3) == (b / 16) % 2);
    assert(text_bit(s, 8 * j + 4) == (b / 8) % 2);
    assert(text_bit(s, 8 * j + 5) == (b / 4) % 2);
    assert(text_bit(s, 8 * j + 6) == (b / 2) % 2);
    assert(text_bit(s, 8 * j + 7) == (b / 1) % 2);
}

proof fn lemma_bits_of_byte(b: u8)
    ensures
        b == 128 * ((b as nat / 128) % 2) + 64 * ((b as nat / 64) % 2) + 32 * ((b as nat / 32) % 2)
            + 16 * ((b as nat / 16) % 2) + 8 * ((b as nat / 8) % 2) + 4 * ((b as nat / 4) % 2) + 2
            * ((b as nat / 2) % 2) + (b as nat / 1) % 2,
{
    assert(b == 128 * ((b / 128) % 2) + 64 * ((b / 64) % 2) + 32 * ((b / 32) % 2) + 16 * ((b / 16)
        % 2) + 8 * ((b / 8) % 2) + 4 * ((b / 4) % 2) + 2 * ((b / 2) % 2) + (b / 1) % 2)
        by (bit_vector);
}

} // verus!
