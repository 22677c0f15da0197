//! The cryptographic primitives: Ed25519 signatures, the X25519 handshake and the circuit cipher.
//!
//! The algorithms themselves come from `ed25519_dalek`, `ring`, `aes` and `ctr`. Their results are
//! named here, and everything else in the library is stated over those names.

use aes::cipher::{KeyIvInit, StreamCipher, StreamCipherSeek};
use ed25519_dalek::{Signer, Verifier};
use ring::agreement::EphemeralPrivateKey;
use vstd::prelude::*;

verus! {

/// `ring::agreement::EphemeralPrivateKey`, which never shows its bytes.
#[verifier::external_type_specification]
#[verifier::external_body]
pub struct ExEphemeralPrivateKey(EphemeralPrivateKey);

/// The Ed25519 public key that belongs to a secret seed.
pub uninterp spec fn ed25519_public(seed: Seq<u8>) -> Seq<u8>;

/// The Ed25519 signature of a message under a secret seed.
pub uninterp spec fn ed25519_signature(seed: Seq<u8>, message: Seq<u8>) -> Seq<u8>;

/// Whether 32 bytes are the encoding of a point of the curve.
pub uninterp spec fn ed25519_valid_key(key: Seq<u8>) -> bool;

/// Whether a signature of a message is good under a public key.
pub uninterp spec fn ed25519_verifies(key: Seq<u8>, message: Seq<u8>, signature: Seq<u8>) -> bool;

/// The public key of an ephemeral private key, if it can be computed.
pub uninterp spec fn ephemeral_public(key: EphemeralPrivateKey) -> Option<Seq<u8>>;

/// The secret that an ephemeral private key and a peer's public key agree on, if they do.
pub uninterp spec fn ephemeral_agreement(key: EphemeralPrivateKey, peer: Seq<u8>) -> Option<Seq<u8>>;

/// The SHA-256 digest.
pub uninterp spec fn sha256(data: Seq<u8>) -> Seq<u8>;

/// The byte at `position` of the AES-256 keystream in counter mode with a counter that starts at
/// zero.
pub uninterp spec fn aes256_ctr_keystream(key: Seq<u8>, position: nat) -> u8;

/// `ed25519_dalek::SigningKey::from_bytes` and `verifying_key`: derive the public key of a seed.
/// Every seed has one, and it is a point of the curve.
#[verifier::external_body]
pub(crate) fn derive_public(seed: &[u8; 32]) -> (r: [u8; 32])
    ensures
        r@ == ed25519_public(seed@),
        ed25519_valid_key(r@),
{
    ed25519_dalek::SigningKey::from_bytes(seed).verifying_key().to_bytes()
}

/// `ed25519_dalek::SigningKey::sign`: the signature depends on the seed and the message alone, and
/// it verifies under the public key of the seed.
#[verifier::external_body]
pub(crate) fn sign_message(seed: &[u8; 32], message: &[u8]) -> (r: [u8; 64])
    ensures
        r@ == ed25519_signature(seed@, message@),
        ed25519_verifies(ed25519_public(seed@), message@, r@),
{
    ed25519_dalek::SigningKey::from_bytes(seed).sign(message).to_bytes()
}

/// `ed25519_dalek::VerifyingKey::from_bytes`: whether it accepts the bytes as a public key, which
/// depends on the bytes alone.
#[verifier::external_body]
pub(crate) fn accepts_key(key: &[u8; 32]) -> (r: bool)
    ensures
        r == ed25519_valid_key(key@),
{
    ed25519_dalek::VerifyingKey::from_bytes(key).is_ok()
}

/// `ed25519_dalek::VerifyingKey::verify`: whether it accepts the signature, which depends on the
/// key, the message and the signature alone.
#[verifier::external_body]
pub(crate) fn verify_message(key: &[u8; 32], message: &[u8], signature: &[u8; 64]) -> (r: bool)
    requires
        ed25519_valid_key(key@),
    ensures
        r == ed25519_verifies(key@, message@, signature@),
{
    let key = ed25519_dalek::VerifyingKey::from_bytes(key).unwrap();
    key.verify(message, &ed25519_dalek::Signature::from_bytes(signature)).is_ok()
}

/// `ed25519_dalek::SigningKey::generate` with the random source of the operating system. Nothing
/// is promised of the seed: it is random.
#[verifier::external_body]
pub(crate) fn random_seed() -> (r: [u8; 32])
{
    ed25519_dalek::SigningKey::generate(&mut rand::rngs::OsRng).to_bytes()
}

/// Whether the public key of an ephemeral key, if there is one, has the length of X25519.
pub open spec fn has_x25519_length(key: EphemeralPrivateKey) -> bool {
    ephemeral_public(key) matches Some(public) ==> public.len() == 32
}

/// `ring::agreement::EphemeralPrivateKey::generate` for X25519. The key is random, and there is
/// none where the random source fails. Its public key, if it can be computed, is 32 bytes long.
#[verifier::external_body]
pub(crate) fn generate_ephemeral() -> (r: Option<EphemeralPrivateKey>)
    ensures
        r matches Some(key) ==> (ephemeral_public(key) matches Some(public) ==> public.len() == 32),
{
    EphemeralPrivateKey::generate(&ring::agreement::X25519, &ring::rand::SystemRandom::new()).ok()
}

/// `ring::agreement::EphemeralPrivateKey::compute_public_key`: the public key, and whether there is
/// one, depends on the private key alone.
#[verifier::external_body]
pub(crate) fn compute_public(key: &EphemeralPrivateKey) -> (r: Option<Vec<u8>>)
    ensures
        match (r, ephemeral_public(*key)) {
            (Some(p), Some(public)) => p@ == public,
            (None, None) => true,
            _ => false,
        },
{
    key.compute_public_key().ok().map(|p| p.as_ref().to_vec())
}

/// `ring::digest::digest` with SHA-256.
#[verifier::external_body]
pub(crate) fn digest_sha256(data: &[u8]) -> (r: [u8; 32])
    ensures
        r@ == sha256(data@),
{
    ring::digest::digest(&ring::digest::SHA256, data).as_ref().try_into().unwrap()
}

/// The key of a circuit: the digest of the secret that the handshake agreed on.
pub fn circuit_key(secret: &[u8]) -> (r: [u8; 32])
    ensures
        r@ == sha256(secret@),
{
    digest_sha256(secret)
}

/// The circuit key that an ephemeral key and a peer's public key lead to, if they agree.
pub open spec fn agreed_key(key: EphemeralPrivateKey, peer: Seq<u8>) -> Option<Seq<u8>> {
    match ephemeral_agreement(key, peer) {
        Some(secret) => Some(sha256(secret)),
        None => None,
    }
}

/// Whether the other side of a handshake, if `peer` is its public key, reaches the same circuit key
/// with the public key of `key`.
pub open spec fn is_mutual(key: EphemeralPrivateKey, peer: Seq<u8>) -> bool {
    forall|other: EphemeralPrivateKey|
        #[trigger] ephemeral_public(other) == Some(peer) ==> match ephemeral_public(key) {
            Some(public) => agreed_key(other, public) == agreed_key(key, peer),
            None => true,
        }
}

/// `ring::agreement::agree_ephemeral` for X25519, with `circuit_key` as the derivation. A peer key
/// that is not 32 bytes long is refused. Both sides of a handshake reach the same result: agreeing
/// with the public key of another private key is agreeing the other way round.
#[verifier::external_body]
pub(crate) fn agree(key: EphemeralPrivateKey, peer: &[u8]) -> (r: Option<[u8; 32]>)
    ensures
        match (r, ephemeral_agreement(key, peer@)) {
            (Some(k), Some(secret)) => k@ == sha256(secret),
            (None, None) => true,
            _ => false,
        },
        peer@.len() != 32 ==> r is None,
        forall|other: EphemeralPrivateKey|
            #[trigger] ephemeral_public(other) == Some(peer@) ==> match ephemeral_public(key) {
                Some(public) => match (r, ephemeral_agreement(other, public)) {
                    (Some(k), Some(secret)) => k@ == sha256(secret),
                    (None, None) => true,
                    _ => false,
                },
                None => true,
            },
{
    let peer = ring::agreement::UnparsedPublicKey::new(&ring::agreement::X25519, peer);
    ring::agreement::agree_ephemeral(key, &peer, |secret| circuit_key(secret)).ok()
}

/// The number of bytes that one keystream gives: the cipher counts blocks of 16 bytes in 64 bits,
/// and does not use the last one.
pub const KEYSTREAM_LEN: u128 = 295147905179352825840;

/// `data` under the keystream from `position` on.
pub open spec fn xored(key: Seq<u8>, position: nat, data: Seq<u8>) -> Seq<u8> {
    Seq::new(data.len(), |i: int| data[i] ^ aes256_ctr_keystream(key, (position + i) as nat))
}

/// `ctr::Ctr64BE<aes::Aes256>`, made with `new` and an initial block of zeros, moved by `seek` and
/// applied by `apply_keystream`: every byte is combined by exclusive or with the byte of the
/// keystream at its position, and the keystream depends on the key alone.
#[verifier::external_body]
pub(crate) fn apply_keystream(key: &[u8; 32], position: u128, data: &mut Vec<u8>)
    requires
        position + old(data)@.len() <= KEYSTREAM_LEN,
    ensures
        final(data)@.len() == old(data)@.len(),
        forall|i: int|
            0 <= i < old(data)@.len() ==> #[trigger] final(data)@[i] == old(data)@[i]
                ^ aes256_ctr_keystream(key@, (position + i) as nat),
{
    let mut cipher = ctr::Ctr64BE::<aes::Aes256>::new(&(*key).into(), &[0u8; 16].into());
    cipher.seek(position);
    cipher.apply_keystream(data.as_mut_slice());
}

/// One direction of a circuit's encryption: the key, and how much of the keystream is used up.
#[derive(Debug, Clone, Copy)]
pub struct CircuitCipher {
    pub key: [u8; 32],
    pub used: u128,
}

/// A `CircuitCipher` as a mathematical value.
pub ghost struct CipherView {
    pub key: Seq<u8>,
    pub used: nat,
}

impl View for CircuitCipher {
    type V = CipherView;

    open spec fn view(&self) -> CipherView {
        CipherView { key: self.key@, used: self.used as nat }
    }
}

impl CipherView {
    /// Whether the keystream lasts for `len` more bytes.
    pub open spec fn has_room(self, len: nat) -> bool {
        self.used + len <= KEYSTREAM_LEN
    }

    /// `data` encrypted, or decrypted: the two are the same.
    pub open spec fn output(self, data: Seq<u8>) -> Seq<u8> {
        xored(self.key, self.used, data)
    }

    /// The cipher after `len` bytes.
    pub open spec fn after(self, len: nat) -> CipherView {
        CipherView { key: self.key, used: self.used + len }
    }
}

/// A cipher that has not been used yet.
pub open spec fn fresh_cipher(key: Seq<u8>) -> CipherView {
    CipherView { key, used: 0 }
}

impl CircuitCipher {
    pub fn new(key: [u8; 32]) -> (r: CircuitCipher)
        ensures
            r@ == fresh_cipher(key@),
    {
        CircuitCipher { key, used: 0 }
    }

    /// Whether the keystream lasts for so many more bytes.
    pub fn lasts_for(&self, len: usize) -> (r: bool)
        ensures
            r == self@.has_room(len as nat),
    {
        self.used <= KEYSTREAM_LEN && len as u128 <= KEYSTREAM_LEN - self.used
    }

    /// Encrypts or decrypts `data` in place. Returns `false`, and changes nothing, where the
    /// keystream is used up.
    pub fn apply(&mut self, data: &mut Vec<u8>) -> (r: bool)
        ensures
            r == old(self)@.has_room(old(data)@.len()),
            r ==> final(data)@ == old(self)@.output(old(data)@) && final(self)@ == old(self)@.after(
                old(data)@.len(),
            ),
            !r ==> final(data)@ == old(data)@ && final(self)@ == old(self)@,
    {
        let len: u128 = data.len() as u128;
        if !self.lasts_for(data.len()) {
            return false;
        }
        apply_keystream(&self.key, self.used, data);
        assert(data@ =~= old(self)@.output(old(data)@));
        self.used = self.used + len;
        true
    }
}

/// Applying the same stretch of keystream twice gives the data back.
pub proof fn law_cipher_round_trip(c: CipherView, data: Seq<u8>)
    ensures
        c.output(c.output(data)) == data,
        c.output(data).len() == data.len(),
{
    assert forall|i: int| 0 <= i < data.len() implies #[trigger] c.output(c.output(data))[i]
        == data[i] by {
        let a = data[i];
        let b = aes256_ctr_keystream(c.key, (c.used + i) as nat);
        assert((a ^ b) ^ b == a) by (bit_vector);
    }
    assert(c.output(c.output(data)) =~= data);
}

/// How a stream of bytes is cut into pieces does not change what it is encrypted to.
pub proof fn law_cipher_is_a_stream(c: CipherView, a: Seq<u8>, b: Seq<u8>)
    ensures
        c.output(a + b) == c.output(a) + c.after(a.len()).output(b),
        c.after((a + b).len()) == c.after(a.len()).after(b.len()),
{
    assert(c.output(a + b) =~= c.output(a) + c.after(a.len()).output(b));
}

} // verus!
