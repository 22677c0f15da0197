use root::addr::is_undialable;
use root::generate_self_signed_cert;

#[test]
fn certificates_are_made_for_a_host() {
    let (cert, key) = generate_self_signed_cert("relay.example").unwrap();
    assert!(!cert.is_empty() && !key.is_empty());
    // Both are DER sequences, and the certificate names the organization and the host.
    assert_eq!((cert[0], key[0]), (0x30, 0x30));
    let holds = |needle: &[u8]| cert.windows(needle.len()).any(|w| w == needle);
    assert!(holds(b"Nebula TorPortal"));
    assert!(holds(b"relay.example"));
    let (other, _) = generate_self_signed_cert("relay.example").unwrap();
    assert_ne!(cert, other);
    assert!(generate_self_signed_cert("caf\u{e9}").is_none());
}

#[test]
fn unspecified_addresses_cannot_be_dialed() {
    assert!(is_undialable("0.0.0.0:8443"));
    assert!(is_undialable("[::]:8443"));
    assert!(is_undialable("::"));
    assert!(!is_undialable("203.0.113.5:8443"));
    assert!(!is_undialable("[2001:db8::1]:8443"));
    assert!(!is_undialable(""));
}
