//! Identities: Ed25519 keys, the `.root` addresses derived from them, and the stored key.

use crate::bytes;
use crate::crypto;
use crate::encoding;
use crate::text;
use vstd::prelude::*;

verus! {

/// An Ed25519 public key. Its bytes are always a point of the curve.
#[derive(Debug, Clone, Copy)]
pub struct VerifyingKey {
    bytes: [u8; 32],
}

impl View for VerifyingKey {
    type V = Seq<u8>;

    closed spec fn view(&self) -> Seq<u8> {
        self.bytes@
    }
}

impl VerifyingKey {
    #[verifier::type_invariant]
    spec fn well_formed(self) -> bool {
        crypto::ed25519_valid_key(self.bytes@)
    }

    /// Takes bytes for a key if they are a point of the curve.
    pub fn from_bytes(key: &[u8; 32]) -> (r: Option<VerifyingKey>)
        ensures
            match r {
                Some(k) => crypto::ed25519_valid_key(key@) && k@ == key@,
                None => !crypto::ed25519_valid_key(key@),
            },
    {
        if crypto::accepts_key(key) {
            Some(VerifyingKey { bytes: *key })
        } else {
            None
        }
    }

    /// Takes a slice for a key if it is 32 bytes long and a point of the curve.
    pub fn from_slice(key: &[u8]) -> (r: Option<VerifyingKey>)
        ensures
            match r {
                Some(k) => valid_key(key@) && k@ == key@,
                None => !valid_key(key@),
            },
    {
        if key.len() != 32 {
            return None;
        }
        let key32 = bytes::array_32(key);
        assert(key32@ =~= key@);
        VerifyingKey::from_bytes(&key32)
    }

    pub fn to_bytes(&self) -> (r: [u8; 32])
        ensures
            r@ == self@,
            valid_key(r@),
    {
        proof {
            use_type_invariant(self);
        }
        self.bytes
    }

    /// Whether two keys are the same.
    pub fn same(&self, other: &VerifyingKey) -> (r: bool)
        ensures
            r == (self@ == other@),
    {
        bytes::bytes_equal(&self.bytes, &other.bytes)
    }

    /// Whether a signature of a message is good under this key.
    pub fn verify(&self, message: &[u8], signature: &[u8; 64]) -> (r: bool)
        ensures
            r == crypto::ed25519_verifies(self@, message@, signature@),
    {
        proof {
            use_type_invariant(self);
        }
        crypto::verify_message(&self.bytes, message, signature)
    }
}

/// Whether a byte string is a public key.
pub open spec fn valid_key(key: Seq<u8>) -> bool {
    key.len() == 32 && crypto::ed25519_valid_key(key)
}

/// An Ed25519 secret key, by its seed.
#[derive(Debug, Clone, Copy)]
pub struct SigningKey {
    seed: [u8; 32],
}

impl View for SigningKey {
    type V = Seq<u8>;

    closed spec fn view(&self) -> Seq<u8> {
        self.seed@
    }
}

impl SigningKey {
    pub fn from_bytes(seed: [u8; 32]) -> (r: SigningKey)
        ensures
            r@ == seed@,
    {
        SigningKey { seed }
    }

    pub fn to_bytes(&self) -> (r: [u8; 32])
        ensures
            r@ == self@,
    {
        self.seed
    }

    /// A new random key.
    pub fn generate() -> (r: SigningKey)
        ensures
            r@.len() == 32,
    {
        SigningKey { seed: crypto::random_seed() }
    }

    pub fn verifying_key(&self) -> (r: VerifyingKey)
        ensures
            r@ == crypto::ed25519_public(self@),
            valid_key(r@),
    {
        VerifyingKey { bytes: crypto::derive_public(&self.seed) }
    }

    /// Signs a message. The signature is good under the public key.
    pub fn sign(&self, message: &[u8]) -> (r: [u8; 64])
        ensures
            r@ == crypto::ed25519_signature(self@, message@),
            crypto::ed25519_verifies(crypto::ed25519_public(self@), message@, r@),
    {
        crypto::sign_message(&self.seed, message)
    }
}

/// Why bytes are no public key.
#[derive(Debug, Clone, Copy, PartialEq, Eq, Structural)]
pub enum KeyError {
    /// They are not 32 bytes long.
    Length,
    /// They are no point of the curve.
    Point,
}

/// Why a name has no key.
#[derive(Debug, Clone, Copy, PartialEq, Eq, Structural)]
pub enum DomainError {
    /// The name does not end in `.root`.
    NotRoot,
    /// What stands in front of `.root` is not base32.
    InvalidBase32,
    /// The decoded bytes are no public key.
    InvalidKey(KeyError),
}

/// The words in which an error is reported. Those for a key are in the words of `ed25519_dalek`.
pub open spec fn domain_message(e: DomainError) -> Seq<char> {
    match e {
        DomainError::NotRoot => "Not a .root domain"@,
        DomainError::InvalidBase32 => "Invalid base32 encoding"@,
        DomainError::InvalidKey(KeyError::Length) => {
            "Invalid key: signature error: VerifyingKey must be 32 bytes in length"@
        },
        DomainError::InvalidKey(KeyError::Point) => {
            "Invalid key: signature error: Cannot decompress Edwards point"@
        },
    }
}

impl DomainError {
    pub fn message(&self) -> (r: String)
        ensures
            r@ == domain_message(*self),
    {
        let words = match self {
            DomainError::NotRoot => "Not a .root domain",
            DomainError::InvalidBase32 => "Invalid base32 encoding",
            DomainError::InvalidKey(KeyError::Length) => {
                "Invalid key: signature error: VerifyingKey must be 32 bytes in length"
            },
            DomainError::InvalidKey(KeyError::Point) => {
                "Invalid key: signature error: Cannot decompress Edwards point"
            },
        };
        text::string_of(text::chars_of(words).as_slice())
    }
}

/// What is wrong with bytes that are no public key.
pub open spec fn key_error(key: Seq<u8>) -> KeyError {
    if key.len() != 32 {
        KeyError::Length
    } else {
        KeyError::Point
    }
}

/// `s` without any `.root` at its end.
pub open spec fn without_root(s: Seq<char>) -> Seq<char>
    decreases s.len(),
{
    if ".root"@.len() > 0 && text::ends_with(s, ".root"@) {
        without_root(s.take(s.len() - ".root"@.len()))
    } else {
        s
    }
}

/// The key that a `.root` name stands for.
pub open spec fn resolved(domain: Seq<char>) -> Result<Seq<u8>, DomainError> {
    if !text::ends_with(domain, ".root"@) {
        Err(DomainError::NotRoot)
    } else {
        match encoding::base32_decoded(without_root(domain)) {
            None => Err(DomainError::InvalidBase32),
            Some(key) => if valid_key(key) {
                Ok(key)
            } else {
                Err(DomainError::InvalidKey(key_error(key)))
            },
        }
    }
}

/// The `.root` address of a key: its base32 text in small letters.
pub open spec fn root_address(key: Seq<u8>) -> Seq<char> {
    text::lower(encoding::base32_encoded(key)) + ".root"@
}

/// Whether a name ends in `.root`.
pub fn is_root_domain(domain: &[char]) -> (r: bool)
    ensures
        r == text::ends_with(domain@, ".root"@),
{
    let suffix = text::chars_of(".root");
    text::finishes_with(domain, suffix.as_slice())
}

/// What is wrong with a name that is too long to be decoded, and far too long for a key.
fn overlong_name(name: &[char]) -> (r: DomainError)
    requires
        name@.len() > usize::MAX / 5,
    ensures
        match encoding::base32_decoded(name@) {
            None => r == DomainError::InvalidBase32,
            Some(key) => r == DomainError::InvalidKey(KeyError::Length) && key.len() != 32,
        },
{
    let n: usize = name.len();
    let mut i: usize = 0;
    while i < n
        invariant
            n == name@.len(),
            i <= n,
            forall|j: int| 0 <= j < i ==> encoding::base32_value(#[trigger] name@[j]) is Some,
        decreases n - i,
    {
        let c = name[i];
        if !(('A' <= c && c <= 'Z') || ('a' <= c && c <= 'z') || ('2' <= c && c <= '7') || c
            == '=') {
            assert(encoding::base32_value(name@[i as int]) is None);
            return DomainError::InvalidBase32;
        }
        i = i + 1;
    }
    proof {
        encoding::lemma_trailing_padding(name@, 0);
        assert(usize::MAX >= 0xffff_ffff);
    }
    DomainError::InvalidKey(KeyError::Length)
}

/// Resolves a `.root` name to a key.
pub fn resolve_root_domain(domain: &str) -> (r: Result<VerifyingKey, DomainError>)
    ensures
        match r {
            Ok(key) => resolved(domain@) == Ok::<_, DomainError>(key@),
            Err(e) => resolved(domain@) == Err::<Seq<u8>, _>(e),
        },
{
    let chars = text::chars_of(domain);
    let s = chars.as_slice();
    if !is_root_domain(s) {
        return Err(DomainError::NotRoot);
    }
    proof {
        reveal_strlit(".root");
        assert(s@.take(s@.len() as int) =~= s@);
    }
    let mut n: usize = s.len();
    while is_root_domain(vstd::slice::slice_subrange(s, 0, n))
        invariant
            n <= s@.len(),
            ".root"@.len() == 5,
            without_root(s@) == without_root(s@.take(n as int)),
        ensures
            n <= s@.len(),
            without_root(s@) == s@.take(n as int),
        decreases n,
    {
        assert(s@.subrange(0, n as int) =~= s@.take(n as int));
        assert(s@.take(n as int).take(n - 5) =~= s@.take(n - 5));
        n = n - 5;
    }
    assert(s@.subrange(0, n as int) =~= s@.take(n as int));
    if n > usize::MAX / 5 {
        return Err(overlong_name(vstd::slice::slice_subrange(s, 0, n)));
    }
    let name = text::string_of(vstd::slice::slice_subrange(s, 0, n));
    match encoding::decode_base32(name.as_str()) {
        None => Err(DomainError::InvalidBase32),
        Some(key) => {
            if key.len() != 32 {
                return Err(DomainError::InvalidKey(KeyError::Length));
            }
            match VerifyingKey::from_slice(key.as_slice()) {
                None => Err(DomainError::InvalidKey(KeyError::Point)),
                Some(key) => Ok(key),
            }
        },
    }
}

/// The address under which a key is reached.
pub fn address_of(key: &VerifyingKey) -> (r: String)
    ensures
        r@ == root_address(key@),
{
    let digits = text::chars_of(encoding::encode_base32(&key.bytes).as_str());
    let mut name = text::to_lower(digits.as_slice());
    text::append_str(&mut name, ".root");
    text::string_of(name.as_slice())
}

/// The identity key file holds something else than 32 bytes.
#[derive(Debug, Clone, Copy, PartialEq, Eq, Structural)]
pub struct CorruptKeyFile {
    pub length: usize,
}

/// The seed that a key file holds.
pub open spec fn stored_seed(contents: Seq<u8>) -> Result<Seq<u8>, CorruptKeyFile> {
    if contents.len() == 32 {
        Ok(contents)
    } else {
        Err(CorruptKeyFile { length: contents.len() as usize })
    }
}

/// The identity of a node: from the contents of its key file, or a new one if there is no file.
/// The flag says that the key is new and has to be saved. A file of the wrong length is an error,
/// and never replaced.
pub fn load_or_create_signing_key(contents: Option<&[u8]>) -> (r: Result<
    (SigningKey, bool),
    CorruptKeyFile,
>)
    ensures
        match contents {
            Some(data) => match r {
                Ok((key, new)) => !new && stored_seed(data@) == Ok::<_, CorruptKeyFile>(key@),
                Err(e) => stored_seed(data@) == Err::<Seq<u8>, _>(e) && e.length == data@.len(),
            },
            None => r matches Ok((key, new)) && new && key@.len() == 32,
        },
{
    match contents {
        Some(data) => {
            if data.len() != 32 {
                return Err(CorruptKeyFile { length: data.len() });
            }
            let seed = bytes::array_32(data);
            assert(seed@ =~= data@);
            Ok((SigningKey::from_bytes(seed), false))
        },
        None => Ok((SigningKey::generate(), true)),
    }
}

/// The words in which a corrupt key file is reported.
pub open spec fn corrupt_message(path: Seq<char>, length: nat) -> Seq<char> {
    "Identity key file "@ + path + " is corrupt (expected 32 bytes, got "@ + text::decimal(length)
        + ")"@
}

impl CorruptKeyFile {
    pub fn message(&self, path: &str) -> (r: String)
        ensures
            r@ == corrupt_message(path@, self.length as nat),
    {
        let mut out: Vec<char> = Vec::new();
        text::append_str(&mut out, "Identity key file ");
        text::append_str(&mut out, path);
        text::append_str(&mut out, " is corrupt (expected 32 bytes, got ");
        text::append_decimal(&mut out, self.length as u64);
        text::append_str(&mut out, ")");
        assert(out@ =~= corrupt_message(path@, self.length as nat));
        text::string_of(out.as_slice())
    }
}

/// The letters and digits of an address.
pub open spec fn is_address_char(c: char) -> bool {
    'a' <= c <= 'z' || '2' <= c <= '7'
}

/// The first position of `s` at or after `i` that, made small, is no address character.
pub open spec fn bad_address_char(s: Seq<char>, i: int) -> int
    decreases s.len() - i,
{
    if i >= s.len() || !is_address_char(text::lower_char(s[i])) {
        i
    } else {
        bad_address_char(s, i + 1)
    }
}

/// The wanted beginning of an address, in small letters; or the first character that no address
/// holds.
pub fn vanity_prefix(prefix: &str) -> (r: Result<Vec<char>, char>)
    ensures
        match r {
            Ok(p) => bad_address_char(prefix@, 0) == prefix@.len() && p@ == text::lower(prefix@),
            Err(c) => bad_address_char(prefix@, 0) < prefix@.len() && c == prefix@[bad_address_char(
                prefix@,
                0,
            )],
        },
{
    let chars = text::chars_of(prefix);
    let small = text::to_lower(chars.as_slice());
    let n: usize = small.len();
    let mut i: usize = 0;
    while i < n
        invariant
            n == small@.len(),
            i <= n,
            chars@ == prefix@,
            small@ == text::lower(prefix@),
            bad_address_char(prefix@, 0) == bad_address_char(prefix@, i as int),
        decreases n - i,
    {
        let c = small[i];
        if !(('a' <= c && c <= 'z') || ('2' <= c && c <= '7')) {
            return Err(chars[i]);
        }
        i = i + 1;
    }
    Ok(small)
}

/// One attempt of the search for an address that begins with `prefix`: draws a random key, and
/// keeps it if its address does. An attempt fails only where some key has another address, so the
/// empty prefix is found at once.
pub fn vanity_attempt(prefix: &[char]) -> (r: Option<SigningKey>)
    ensures
        match r {
            Some(key) => text::starts_with(root_address(crypto::ed25519_public(key@)), prefix@),
            None => exists|seed: Seq<u8>|
                seed.len() == 32 && !text::starts_with(
                    root_address(#[trigger] crypto::ed25519_public(seed)),
                    prefix@,
                ),
        },
        prefix@.len() == 0 ==> r is Some,
{
    let key = SigningKey::generate();
    assert(prefix@.len() == 0 ==> root_address(crypto::ed25519_public(key@)).take(0) =~= prefix@);
    if has_vanity_prefix(&key, prefix) {
        Some(key)
    } else {
        None
    }
}

/// Whether the address of a key begins with `prefix`.
pub fn has_vanity_prefix(key: &SigningKey, prefix: &[char]) -> (r: bool)
    ensures
        r == text::starts_with(root_address(crypto::ed25519_public(key@)), prefix@),
{
    let address = address_of(&key.verifying_key());
    let chars = text::chars_of(address.as_str());
    text::begins_with(chars.as_slice(), prefix)
}

/// The address of a key resolves to the key, and nothing else is needed for that.
pub proof fn law_address_round_trip(key: Seq<u8>)
    requires
        valid_key(key),
    ensures
        resolved(root_address(key)) == Ok::<_, DomainError>(key),
{
    let name = text::lower(encoding::base32_encoded(key));
    let address = root_address(key);
    reveal_strlit(".root");
    encoding::law_base32_round_trip(key);
    assert(address.skip(address.len() - 5) =~= ".root"@);
    assert(address.take(address.len() - 5) =~= name);
    assert(!text::ends_with(name, ".root"@)) by {
        if text::ends_with(name, ".root"@) {
            let dot = name.len() - 5;
            assert(name.skip(dot)[0] == '.');
            assert(name[dot] == '.');
            assert(encoding::base32_value(name[dot]) is Some);
        }
    }
    assert(without_root(name) == name);
}

/// An address is 52 characters out of `a-z` and `2-7`, and `.root`.
pub proof fn law_address_form(key: Seq<u8>)
    requires
        key.len() == 32,
    ensures
        root_address(key).len() == 57,
        forall|i: int| 0 <= i < 52 ==> is_address_char(#[trigger] root_address(key)[i]),
        text::ends_with(root_address(key), ".root"@),
{
    reveal_strlit(".root");
    let address = root_address(key);
    assert forall|i: int| 0 <= i < 52 implies is_address_char(#[trigger] address[i]) by {
        assert(encoding::five_bits(key, 5 * i) < 32);
        assert(address[i] == text::lower_char(
            encoding::base32_digit(encoding::five_bits(key, 5 * i)),
        ));
    }
    assert(address.skip(52) =~= ".root"@);
}

/// Two keys never share an address.
pub proof fn law_addresses_are_distinct(a: Seq<u8>, b: Seq<u8>)
    requires
        valid_key(a),
        valid_key(b),
        root_address(a) == root_address(b),
    ensures
        a == b,
{
    law_address_round_trip(a);
    law_address_round_trip(b);
}

/// A saved key is the key that is loaded, so an identity lasts as long as its file.
pub proof fn law_identity_persists(seed: Seq<u8>)
    requires
        seed.len() == 32,
    ensures
        stored_seed(seed) == Ok::<_, CorruptKeyFile>(seed),
{
}

} // verus!
