use root::crypto::circuit_key;
use root::encoding::text_of;
use root::identity::{
    address_of, has_vanity_prefix, vanity_attempt, vanity_prefix, CorruptKeyFile, DomainError,
    KeyError,
};
use root::{load_or_create_signing_key, resolve_root_domain, SigningKey, VerifyingKey};

fn encoded(key: &[u8]) -> String {
    base32::encode(base32::Alphabet::RFC4648 { padding: false }, key)
}

#[test]
fn test_root_resolution() {
    // Generating a dummy key
    let key_bytes = [0u8; 32];
    let b32_key =
        base32::encode(base32::Alphabet::RFC4648 { padding: false }, &key_bytes).to_lowercase();
    let domain = format!("{}.root", b32_key);

    let resolved = resolve_root_domain(&domain).unwrap();
    assert_eq!(resolved.to_bytes(), key_bytes);
}

#[test]
fn addresses_resolve_to_their_keys() {
    for seed in 0u8..8 {
        let key = SigningKey::from_bytes([seed; 32]).verifying_key();
        let address = address_of(&key);
        assert_eq!(address.len(), 57);
        assert_eq!(address, format!("{}.root", encoded(&key.to_bytes()).to_lowercase()));
        assert_eq!(resolve_root_domain(&address).unwrap().to_bytes(), key.to_bytes());
        let capitals = format!("{}.root", encoded(&key.to_bytes()));
        assert_eq!(resolve_root_domain(&capitals).unwrap().to_bytes(), key.to_bytes());
        let twice = format!("{}.root.root", encoded(&key.to_bytes()));
        assert_eq!(resolve_root_domain(&twice).unwrap().to_bytes(), key.to_bytes());
    }
}

#[test]
fn the_address_of_a_known_key() {
    let key = VerifyingKey::from_bytes(&[0; 32]).unwrap();
    assert_eq!(address_of(&key), format!("{}.root", "a".repeat(52)));
}

#[test]
fn bad_names_are_refused() {
    assert_eq!(resolve_root_domain("example.com").unwrap_err(), DomainError::NotRoot);
    assert_eq!(resolve_root_domain("").unwrap_err(), DomainError::NotRoot);
    assert_eq!(resolve_root_domain("abc1.root").unwrap_err(), DomainError::InvalidBase32);
    assert_eq!(resolve_root_domain("caf\u{e9}.root").unwrap_err(), DomainError::InvalidBase32);
    assert_eq!(resolve_root_domain("aaaa.root").unwrap_err(), DomainError::InvalidKey(KeyError::Length));
    assert_eq!(resolve_root_domain(".root").unwrap_err(), DomainError::InvalidKey(KeyError::Length));
    // Thirty-two bytes that are no point of the curve.
    let mut no_point = [0u8; 32];
    no_point[0] = 2;
    assert!(ed25519_dalek::VerifyingKey::from_bytes(&no_point).is_err());
    let domain = format!("{}.root", encoded(&no_point));
    let refused = resolve_root_domain(&domain).unwrap_err();
    assert_eq!(refused, DomainError::InvalidKey(KeyError::Point));
    // The words are those of the key's own type.
    let reason = ed25519_dalek::VerifyingKey::try_from(&no_point[..]).unwrap_err();
    assert_eq!(refused.message(), format!("Invalid key: {}", reason));
    let reason = ed25519_dalek::VerifyingKey::try_from(&no_point[..2]).unwrap_err();
    let refused = resolve_root_domain("aaaa.root").unwrap_err();
    assert_eq!(refused.message(), format!("Invalid key: {}", reason));
    assert_eq!(DomainError::NotRoot.message(), "Not a .root domain");
    assert_eq!(DomainError::InvalidBase32.message(), "Invalid base32 encoding");
}

#[test]
fn keys_are_those_of_ed25519() {
    let seed = [9u8; 32];
    let mine = SigningKey::from_bytes(seed);
    let theirs = ed25519_dalek::SigningKey::from_bytes(&seed);
    assert_eq!(mine.to_bytes(), seed);
    assert_eq!(mine.verifying_key().to_bytes(), theirs.verifying_key().to_bytes());
    let signature = mine.sign(b"hello");
    assert_eq!(signature, ed25519_dalek::Signer::sign(&theirs, b"hello").to_bytes());
    assert!(mine.verifying_key().verify(b"hello", &signature));
    assert!(!mine.verifying_key().verify(b"hallo", &signature));
    let other = SigningKey::from_bytes([8u8; 32]).verifying_key();
    assert!(!other.verify(b"hello", &signature));
    assert!(other.same(&other));
    assert!(!other.same(&mine.verifying_key()));
    assert!(VerifyingKey::from_slice(&[0; 31]).is_none());
    assert!(VerifyingKey::from_slice(&[0; 32]).is_some());
}

#[test]
fn stored_keys_are_loaded_and_never_replaced() {
    let seed = [5u8; 32];
    let (key, new) = load_or_create_signing_key(Some(&seed)).unwrap();
    assert_eq!(key.to_bytes(), seed);
    assert!(!new);
    let error = load_or_create_signing_key(Some(&[1, 2, 3])).unwrap_err();
    assert_eq!(error, CorruptKeyFile { length: 3 });
    assert_eq!(
        error.message("data/identity.key"),
        "Identity key file data/identity.key is corrupt (expected 32 bytes, got 3)"
    );
    let (first, new) = load_or_create_signing_key(None).unwrap();
    assert!(new);
    let (second, _) = load_or_create_signing_key(None).unwrap();
    assert_ne!(first.to_bytes(), second.to_bytes());
    let (again, new) = load_or_create_signing_key(Some(&first.to_bytes())).unwrap();
    assert_eq!(again.to_bytes(), first.to_bytes());
    assert!(!new);
}

#[test]
fn vanity_prefixes_are_checked() {
    assert_eq!(vanity_prefix("aB7").unwrap(), vec!['a', 'b', '7']);
    assert_eq!(vanity_prefix("").unwrap(), Vec::<char>::new());
    assert_eq!(vanity_prefix("ab1c8").unwrap_err(), '1');
    assert_eq!(vanity_prefix("x-y").unwrap_err(), '-');
    assert_eq!(vanity_prefix("\u{c4}").unwrap_err(), '\u{c4}');
}

#[test]
fn a_vanity_search_finds_its_prefix() {
    let prefix = vanity_prefix("Q").unwrap();
    let mut found = None;
    for _ in 0..100000 {
        if let Some(key) = vanity_attempt(&prefix) {
            found = Some(key);
            break;
        }
    }
    let key = found.unwrap();
    assert!(address_of(&key.verifying_key()).starts_with('q'));
    assert!(has_vanity_prefix(&key, &['q']));
    assert!(!has_vanity_prefix(&key, &['r']));
    // Every address begins with nothing, and none with a letter that no address holds.
    assert!(vanity_attempt(&[]).is_some());
    assert!(vanity_attempt(&['1']).is_none());
}

#[test]
fn circuit_keys_are_sha256_digests() {
    let key = circuit_key(b"abc");
    assert_eq!(&key[..4], &[0xba, 0x78, 0x16, 0xbf]);
    assert_eq!(&key[28..], &[0xf2, 0x00, 0x15, 0xad]);
}

#[test]
fn bytes_are_read_as_text() {
    assert_eq!(text_of("gr\u{fc}n".as_bytes()), "gr\u{fc}n");
    assert_eq!(text_of(b"a\xffb"), "a\u{fffd}b");
    assert_eq!(text_of(b""), "");
}
