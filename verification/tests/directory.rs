use root::directory::certificate_matches;
use root::{
    Directory, HiddenServiceDescriptor, Ipv4Addr, PeerInfo, PeerStore, RelayDescriptor, SigningKey,
    SocketAddr,
};

fn addr(last: u8) -> SocketAddr {
    SocketAddr::V4 { ip: Ipv4Addr::new(127, 0, 0, last), port: 8080 }
}

#[test]
fn test_directory_logic() {
    let mut directory = Directory::new();

    let signing_key = SigningKey::generate();
    let verifying_key = signing_key.verifying_key();
    let addr = addr(1);
    let now = 1_700_000_000;

    let descriptor = RelayDescriptor::new(verifying_key, addr, vec![], now, &signing_key);

    // Test valid add
    assert!(directory.add_relay(descriptor.clone()));

    // Test duplicate (should fail/return false due to timestamp not being newer)
    assert!(!directory.add_relay(descriptor));

    // Test updated timestamp
    let newer_descriptor = RelayDescriptor::new(verifying_key, addr, vec![], now + 1, &signing_key);
    assert!(directory.add_relay(newer_descriptor));
}

fn relay(seed: u8, last: u8, cert: Vec<u8>, time: u64) -> RelayDescriptor {
    let key = SigningKey::from_bytes([seed; 32]);
    RelayDescriptor::new(key.verifying_key(), addr(last), cert, time, &key)
}

#[test]
fn unsigned_and_older_descriptors_are_refused() {
    let mut directory = Directory::new();
    let mut forged = relay(1, 1, vec![1], 10);
    forged.tls_public_key = vec![2];
    assert!(forged.verify().is_err());
    assert!(!directory.add_relay(forged));
    let stranger = SigningKey::from_bytes([9; 32]);
    let mut foreign = relay(1, 1, vec![1], 10);
    foreign.sign(&stranger);
    assert!(!directory.add_relay(foreign));
    assert!(directory.get_all_relays().is_empty());

    assert!(directory.add_relay(relay(1, 1, vec![1], 10)));
    assert!(!directory.add_relay(relay(1, 2, vec![1], 9)));
    assert!(directory.add_relay(relay(2, 3, vec![], 1)));
    let mut all = directory.get_all_relays();
    all.sort_by_key(|d| d.last_updated);
    assert_eq!(all.len(), 2);
    assert_eq!(all[0].external_address, addr(3));
    assert_eq!(all[1].external_address, addr(1));
    assert_eq!(directory.relay_addresses().len(), 2);
}

#[test]
fn the_order_of_arrival_does_not_matter() {
    let list = [relay(1, 1, vec![], 1), relay(1, 2, vec![], 2), relay(2, 3, vec![], 7)];
    let mut forward = Directory::new();
    forward.add_relays(list.to_vec());
    let mut backward = Directory::new();
    backward.add_relays(list.iter().rev().cloned().collect());
    let seen = |d: &Directory| {
        let mut all: Vec<_> =
            d.get_all_relays().iter().map(|r| (r.id.to_bytes(), r.last_updated)).collect();
        all.sort();
        all
    };
    assert_eq!(seen(&forward), seen(&backward));
    assert_eq!(seen(&forward).len(), 2);
}

#[test]
fn known_relays_are_pinned() {
    let mut directory = Directory::new();
    assert!(directory.pinned_certificate(addr(1)).is_none());
    directory.add_relay(relay(1, 1, vec![], 1));
    assert!(directory.pinned_certificate(addr(1)).is_none());
    directory.add_relay(relay(2, 1, vec![4, 5], 1));
    directory.add_relay(relay(3, 2, vec![6], 1));
    assert_eq!(directory.pinned_certificate(addr(1)), Some(vec![4, 5]));
    assert_eq!(directory.pinned_certificate(addr(2)), Some(vec![6]));
    assert!(directory.pinned_certificate(addr(3)).is_none());
    assert!(certificate_matches(&[4, 5], &[4, 5]));
    assert!(!certificate_matches(&[4, 5], &[4, 5, 6]));
    assert!(!certificate_matches(&[4, 5], &[4, 6]));
}

#[test]
fn hidden_services_are_published_only_when_signed() {
    let mut directory = Directory::new();
    let key = SigningKey::from_bytes([3; 32]);
    let id = key.verifying_key();
    assert!(directory.get_hidden_service(&id).is_none());
    let descriptor = HiddenServiceDescriptor::new(id, vec![addr(1), addr(2)], &key);
    let mut forged = descriptor.clone();
    forged.introduction_points = vec![addr(9)];
    assert!(forged.verify().is_err());
    assert!(!directory.publish_hidden_service(forged));
    assert!(directory.get_hidden_service(&id).is_none());
    assert!(directory.publish_hidden_service(descriptor));
    assert_eq!(
        directory.get_hidden_service(&id).unwrap().introduction_points,
        vec![addr(1), addr(2)]
    );
    // There is no time in it: a later one replaces an earlier one.
    assert!(directory.publish_hidden_service(HiddenServiceDescriptor::new(id, vec![], &key)));
    assert!(directory.get_hidden_service(&id).unwrap().introduction_points.is_empty());
}

#[test]
fn service_signatures_cover_what_bincode_writes() {
    let key = SigningKey::from_bytes([3; 32]);
    let d = HiddenServiceDescriptor::new(key.verifying_key(), vec![addr(1)], &key);
    let id = ed25519_dalek::VerifyingKey::from_bytes(&d.identity_key.to_bytes()).unwrap();
    let blank = ed25519_dalek::Signature::from_bytes(&[0; 64]);
    let fields = (id, vec![(0u32, [127u8, 0, 0, 1], 8080u16)], blank);
    let message = bincode::serialize(&fields).unwrap();
    assert_eq!(d.signature, key.sign(&message));
}

#[test]
fn peers_stand_under_their_address() {
    let mut store = PeerStore::new();
    assert!(store.get_all_peers().is_empty());
    store.add_peer(PeerInfo::new(relay(1, 1, vec![], 1), 100));
    store.add_peer(PeerInfo::new(relay(2, 2, vec![], 1), 200));
    store.add_peer(PeerInfo::new(relay(3, 1, vec![], 1), 300));
    let mut all = store.get_all_peers();
    all.sort_by_key(|p| p.last_seen);
    assert_eq!(all.len(), 2);
    assert_eq!(all[0].last_seen, 200);
    assert_eq!(all[1].last_seen, 300);
    assert_eq!(all[1].descriptor.external_address, addr(1));
}
