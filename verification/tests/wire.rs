use root::wire::{Cell, CellCommand, GossipMessage, Message, RelayCell, RelayCommand};
use root::{Ipv4Addr, Ipv6Addr, RelayDescriptor, SigningKey, SocketAddr};

fn descriptor(seed: u8, addr: SocketAddr, time: u64) -> RelayDescriptor {
    let key = SigningKey::from_bytes([seed; 32]);
    RelayDescriptor::new(key.verifying_key(), addr, vec![seed, 1, 2], time, &key)
}

fn v4(last: u8, port: u16) -> SocketAddr {
    SocketAddr::V4 { ip: Ipv4Addr::new(10, 0, 0, last), port }
}

fn v6() -> SocketAddr {
    SocketAddr::V6 {
        ip6: Ipv6Addr { a: 0x2001, b: 0xdb8, c: 3, d: 4, e: 5, f: 6, g: 7, h: 0xfffe },
        port: 443,
        flowinfo: 0,
        scope_id: 0,
    }
}

#[test]
fn relay_cells_are_encoded_as_a_record_of_their_fields() {
    let cell = RelayCell {
        stream_id: 0x0102,
        recognized: 3,
        digest: 0x0a0b0c0d,
        command: RelayCommand::EstablishIntro,
        data: vec![9, 8, 7],
    };
    let encoded = cell.encode();
    let reference =
        bincode::serialize(&(0x0102u16, 3u16, 0x0a0b0c0du32, 15u32, vec![9u8, 8, 7])).unwrap();
    assert_eq!(encoded, reference);
    let back = RelayCell::decode(&encoded).unwrap();
    assert_eq!(back.stream_id, 0x0102);
    assert_eq!(back.recognized, 3);
    assert_eq!(back.digest, 0x0a0b0c0d);
    assert_eq!(back.command, RelayCommand::EstablishIntro);
    assert_eq!(back.data, vec![9, 8, 7]);
}

#[test]
fn cells_are_the_second_kind_of_message() {
    let message = Message::TorCell(Cell {
        circ_id: 77,
        command: CellCommand::Relay,
        payload: vec![1, 2, 3, 4],
    });
    let encoded = message.encode();
    let reference: Result<(), (u32, u32, Vec<u8>)> = Err((77, 3, vec![1, 2, 3, 4]));
    assert_eq!(encoded, bincode::serialize(&reference).unwrap());
    match Message::decode(&encoded) {
        Some(Message::TorCell(cell)) => {
            assert_eq!(cell.circ_id, 77);
            assert_eq!(cell.command, CellCommand::Relay);
            assert_eq!(cell.payload, vec![1, 2, 3, 4]);
        }
        _ => panic!(),
    }
    let mut packet = vec![0, 0, 0, encoded.len() as u8];
    packet.extend_from_slice(&encoded);
    assert_eq!(message.packet(), packet);
}

#[test]
fn gossip_is_encoded_with_every_descriptor() {
    let d = descriptor(1, v4(1, 8443), 1000);
    let key = ed25519_dalek::VerifyingKey::from_bytes(&d.id.to_bytes()).unwrap();
    let signature = ed25519_dalek::Signature::from_bytes(&d.signature);
    // An address of the first kind, as its kind, its octets and its port.
    let fields = (key, (0u32, [10u8, 0, 0, 1], 8443u16), vec![1u8, 1, 2], 1000u64, signature);
    let mut expected = bincode::serialize(&(0u32, 0u32, 1u64)).unwrap();
    expected.extend_from_slice(&bincode::serialize(&fields).unwrap());
    let message = Message::Gossip(GossipMessage::Update(vec![d]));
    assert_eq!(message.encode(), expected);
}

#[test]
fn gossip_comes_back() {
    let list = vec![descriptor(1, v4(1, 1), 5), descriptor(2, v6(), u64::MAX)];
    let encoded = Message::Gossip(GossipMessage::Update(list)).encode();
    match Message::decode(&encoded) {
        Some(Message::Gossip(GossipMessage::Update(back))) => {
            assert_eq!(back.len(), 2);
            assert_eq!(back[0].external_address, v4(1, 1));
            assert_eq!(back[0].last_updated, 5);
            assert_eq!(back[0].tls_public_key, vec![1, 1, 2]);
            assert_eq!(back[1].external_address, v6());
            assert_eq!(back[1].last_updated, u64::MAX);
            assert!(back[0].verify().is_ok());
            assert!(back[1].verify().is_ok());
        }
        _ => panic!(),
    }
}

#[test]
fn the_scope_of_an_address_is_not_sent() {
    let scoped = SocketAddr::V6 {
        ip6: Ipv6Addr { a: 0xfe80, b: 0, c: 0, d: 0, e: 0, f: 0, g: 0, h: 1 },
        port: 80,
        flowinfo: 1,
        scope_id: 5,
    };
    let encoded = Message::Gossip(GossipMessage::Update(vec![descriptor(3, scoped, 1)])).encode();
    match Message::decode(&encoded) {
        Some(Message::Gossip(GossipMessage::Update(back))) => match back[0].external_address {
            SocketAddr::V6 { ip6, port, flowinfo, scope_id } => {
                assert_eq!(ip6.a, 0xfe80);
                assert_eq!((port, flowinfo, scope_id), (80, 0, 0));
            }
            _ => panic!(),
        },
        _ => panic!(),
    }
}

#[test]
fn broken_encodings_are_refused() {
    let cell = Message::TorCell(Cell {
        circ_id: 1,
        command: CellCommand::Create,
        payload: vec![5; 10],
    })
    .encode();
    assert!(Message::decode(&[]).is_none());
    assert!(Message::decode(&cell[..cell.len() - 1]).is_none());
    // Bytes behind a message do no harm.
    let mut longer = cell.clone();
    longer.push(0);
    assert!(Message::decode(&longer).is_some());
    // There is no third kind of message, no second kind of gossip, no sixth cell command.
    assert!(Message::decode(&[2, 0, 0, 0, 0, 0, 0, 0]).is_none());
    assert!(Message::decode(&[0, 0, 0, 0, 1, 0, 0, 0]).is_none());
    let mut bad_command = cell.clone();
    bad_command[8] = 5;
    assert!(Message::decode(&bad_command).is_none());
    // A relay command beyond the last one.
    let mut relay = RelayCell {
        stream_id: 0,
        recognized: 0,
        digest: 0,
        command: RelayCommand::RendezvousEstablished,
        data: vec![],
    }
    .encode();
    assert!(RelayCell::decode(&relay).is_some());
    relay[8] = 23;
    assert!(RelayCell::decode(&relay).is_none());
    // A key of 31 bytes.
    let mut gossip = Message::Gossip(GossipMessage::Update(vec![descriptor(1, v4(1, 1), 1)])).encode();
    gossip[16] = 31;
    assert!(Message::decode(&gossip).is_none());
    // More descriptors announced than there are.
    let mut gossip = Message::Gossip(GossipMessage::Update(vec![descriptor(1, v4(1, 1), 1)])).encode();
    gossip[8] = 2;
    assert!(Message::decode(&gossip).is_none());
    // An address of a third kind.
    let mut gossip = Message::Gossip(GossipMessage::Update(vec![descriptor(1, v4(1, 1), 1)])).encode();
    gossip[56] = 2;
    assert!(Message::decode(&gossip).is_none());
}

#[test]
fn commands_have_their_places_and_numbers() {
    assert_eq!(RelayCommand::Begin.index(), 0);
    assert_eq!(RelayCommand::Begin.code(), 1);
    assert_eq!(RelayCommand::EstablishIntro.index(), 15);
    assert_eq!(RelayCommand::EstablishIntro.code(), 32);
    assert_eq!(RelayCommand::RendezvousEstablished.index(), 22);
    assert_eq!(RelayCommand::RendezvousEstablished.code(), 39);
    assert_eq!(CellCommand::Destroy.index(), 4);
    assert_eq!(CellCommand::Destroy.code(), 4);
    for i in 0..23 {
        assert_eq!(RelayCommand::at(i).unwrap().index(), i);
    }
    assert!(RelayCommand::at(23).is_none());
    assert!(CellCommand::at(5).is_none());
}
