use ring::agreement::{EphemeralPrivateKey, X25519};
use root::client::{
    establish_circuit, first_hop, offer_with, server_host, BuildError, CircuitBuilder,
};
use root::crypto::KEYSTREAM_LEN;
use root::link::{
    can_upload, download, recv_relay_cell, send_relay_cell, serve, upload_packet, Download, Link,
    ReceiveError, Upload,
};
use root::{Cell, CellCommand, GossipMessage, Ipv4Addr, Message, Packet, RelayCell, RelayCommand, SocketAddr};

fn addr(last: u8) -> SocketAddr {
    SocketAddr::V4 { ip: Ipv4Addr::new(203, 0, 113, last), port: 0x1234 }
}

fn payload_of(packet: &[u8]) -> Vec<u8> {
    Packet::decapsulate(packet).unwrap().payload
}

fn gossip() -> Vec<u8> {
    Message::Gossip(GossipMessage::Update(vec![])).encode()
}

fn cell(command: CellCommand, payload: Vec<u8>) -> Vec<u8> {
    Message::TorCell(Cell { circ_id: 1, command, payload }).encode()
}

/// A payload with a relay cell from the other end of a circuit.
fn sealed(link: &mut Link, command: RelayCommand, data: &[u8]) -> Vec<u8> {
    let cell = RelayCell::plain(1, command, data.to_vec());
    payload_of(&send_relay_cell(link, &cell).unwrap())
}

fn fresh_key() -> EphemeralPrivateKey {
    EphemeralPrivateKey::generate(&X25519, &ring::rand::SystemRandom::new()).unwrap()
}

fn public_of(key: &EphemeralPrivateKey) -> Vec<u8> {
    key.compute_public_key().unwrap().as_ref().to_vec()
}

#[test]
fn an_empty_path_is_refused() {
    assert_eq!(first_hop(&[]), Err(BuildError::EmptyPath));
    assert_eq!(first_hop(&[addr(1), addr(2)]), Ok(addr(1)));
    assert!(matches!(establish_circuit(1, vec![]), Err(BuildError::EmptyPath)));
}

#[test]
fn a_circuit_begins_with_a_fresh_public_key() {
    let (offer, packet) = establish_circuit(3, vec![addr(1)]).unwrap();
    assert_eq!(offer.circ_id, 3);
    match Message::decode(&payload_of(&packet)) {
        Some(Message::TorCell(cell)) => {
            assert_eq!((cell.circ_id, cell.command), (3, CellCommand::Create));
            assert_eq!(cell.payload.len(), 32);
            let (_, other) = establish_circuit(3, vec![addr(1)]).unwrap();
            assert_ne!(packet, other);
        }
        _ => panic!(),
    }
}

#[test]
fn bad_first_answers_are_refused() {
    let answer = |payload: &[u8]| {
        let (offer, _) = establish_circuit(3, vec![addr(1)]).unwrap();
        offer.answered(payload).err()
    };
    assert_eq!(answer(b"junk"), Some(BuildError::Decode));
    assert_eq!(answer(&gossip()), Some(BuildError::InvalidResponse));
    assert_eq!(answer(&cell(CellCommand::Created, vec![1; 31])), Some(BuildError::Handshake));
    assert_eq!(answer(&cell(CellCommand::Created, vec![0; 32])), Some(BuildError::Handshake));
    assert_eq!(answer(&cell(CellCommand::Created, vec![9; 32])), None);
    // The key counts, not the command of the cell.
    assert_eq!(answer(&cell(CellCommand::Relay, vec![9; 32])), None);
}

#[test]
fn an_offer_needs_a_path_and_a_key() {
    assert_eq!(offer_with(3, vec![], Some(fresh_key())).err(), Some(BuildError::EmptyPath));
    assert_eq!(offer_with(3, vec![], None).err(), Some(BuildError::EmptyPath));
    assert_eq!(offer_with(3, vec![addr(1)], None).err(), Some(BuildError::Keygen));
    let key = fresh_key();
    let public = public_of(&key);
    let (offer, packet) = offer_with(3, vec![addr(1)], Some(key)).ok().unwrap();
    assert_eq!((offer.circ_id, offer.path), (3, vec![addr(1)]));
    match Message::decode(&payload_of(&packet)) {
        Some(Message::TorCell(cell)) => assert_eq!(cell.payload, public),
        _ => panic!(),
    }
}

#[test]
fn an_extend_cell_carries_address_port_and_key() {
    let mut client = CircuitBuilder::new(1, vec![addr(1), addr(2)], [6; 32]);
    assert_eq!(client.extend_with(None).err(), Some(BuildError::Keygen));
    let key = fresh_key();
    let mut expected = vec![203, 0, 113, 2, 0x12, 0x34];
    expected.extend_from_slice(&public_of(&key));
    let (_, packet) = client.extend_with(Some(key)).unwrap();
    let mut other = Link::new(1, [6; 32]);
    let seen = recv_relay_cell(&mut other, &payload_of(&packet)).unwrap();
    assert_eq!(seen.command, RelayCommand::Extend);
    assert_eq!(seen.data, expected);
    assert_eq!(client.link.forward.ciphers.len(), 1);
    assert_eq!(client.link.forward.ciphers[0].used, other.backward.ciphers[0].used);
    client.link.forward.ciphers[0].used = KEYSTREAM_LEN;
    assert_eq!(client.extend().unwrap_err(), BuildError::Exhausted);
}

#[test]
fn answers_to_extend_are_checked() {
    let mut relay = Link::new(1, [6; 32]);
    let mut client = CircuitBuilder::new(1, vec![addr(1), addr(2)], [6; 32]);
    assert_eq!(client.extended(fresh_key(), b"junk"), Err(BuildError::Decode));
    assert_eq!(client.extended(fresh_key(), &gossip()), Err(BuildError::UnexpectedMessage));
    assert_eq!(
        client.extended(fresh_key(), &cell(CellCommand::Created, vec![])),
        Err(BuildError::UnexpectedCell)
    );
    assert_eq!(client.link.backward.ciphers[0].used, 0);
    let other = sealed(&mut relay, RelayCommand::End, b"");
    assert_eq!(client.extended(fresh_key(), &other), Err(BuildError::UnexpectedRelayCommand));
    assert_eq!(client.link.backward.ciphers[0].used, relay.forward.ciphers[0].used);
    assert_eq!(
        client.extended(fresh_key(), &cell(CellCommand::Relay, vec![1, 2, 3])),
        Err(BuildError::Decode)
    );
    relay.forward.ciphers[0].used = client.link.backward.ciphers[0].used;
    let bad = sealed(&mut relay, RelayCommand::Extended, b"no key");
    assert_eq!(client.extended(fresh_key(), &bad), Err(BuildError::Handshake));
    assert_eq!(client.link.forward.ciphers.len(), 1);
    let good = sealed(&mut relay, RelayCommand::Extended, &public_of(&fresh_key()));
    assert_eq!(client.extended(fresh_key(), &good), Ok(()));
    assert_eq!(client.link.forward.ciphers.len(), 2);
    assert_eq!(client.link.forward.ciphers[1].used, 0);
    assert!(client.is_complete());
    let mut late = CircuitBuilder::new(1, vec![addr(1), addr(2)], [6; 32]);
    late.link.backward.ciphers[0].used = KEYSTREAM_LEN;
    assert_eq!(late.extended(fresh_key(), &good), Err(BuildError::Exhausted));
}

#[test]
fn errors_have_words() {
    assert_eq!(BuildError::EmptyPath.message().unwrap(), "Empty path");
    assert_eq!(BuildError::Keygen.message().unwrap(), "Keygen fail");
    assert_eq!(BuildError::InvalidResponse.message().unwrap(), "Invalid response");
    assert_eq!(BuildError::Handshake.message().unwrap(), "Handshake fail");
    assert_eq!(BuildError::Ipv6NotSupported.message().unwrap(), "IPv6 not supported");
    assert_eq!(BuildError::UnexpectedRelayCommand.message().unwrap(), "Unexpected relay command");
    assert_eq!(BuildError::UnexpectedCell.message().unwrap(), "Unexpected cell");
    assert_eq!(BuildError::UnexpectedMessage.message().unwrap(), "Unexpected message");
    assert!(BuildError::Decode.message().is_none());
}

#[test]
fn what_is_sealed_can_be_opened() {
    let mut sender = Link::new(1, [1; 32]);
    let mut receiver = Link::new(1, [1; 32]);
    for extra in 0..3u8 {
        for i in 0..10u8 {
            let payload = sealed(&mut sender, RelayCommand::Data, &vec![i; i as usize * 30]);
            let rc = recv_relay_cell(&mut receiver, &payload).unwrap();
            assert_eq!(rc.data, vec![i; i as usize * 30]);
            for (f, b) in sender.forward.ciphers.iter().zip(&receiver.backward.ciphers) {
                assert_eq!(f.used, b.used);
            }
        }
        sender.push_hop([2 + extra; 32]);
        receiver.push_hop([2 + extra; 32]);
    }
    let mut spent = Link::new(1, [1; 32]);
    spent.push_hop([2; 32]);
    spent.forward.ciphers[1].used = KEYSTREAM_LEN;
    spent.backward.ciphers[1].used = KEYSTREAM_LEN;
    let data = RelayCell::plain(1, RelayCommand::Data, vec![]);
    assert!(send_relay_cell(&mut spent, &data).is_none());
    // No layer moves where one is used up.
    assert_eq!(spent.forward.ciphers[0].used, 0);
    let payload = sealed(&mut sender, RelayCommand::Data, b"x");
    assert_eq!(recv_relay_cell(&mut spent, &payload).unwrap_err(), ReceiveError::Exhausted);
    assert_eq!(recv_relay_cell(&mut receiver, b"").unwrap_err(), ReceiveError::Decode);
    assert_eq!(recv_relay_cell(&mut receiver, &gossip()).unwrap_err(), ReceiveError::NotACell);
    assert_eq!(
        recv_relay_cell(&mut receiver, &cell(CellCommand::Padding, vec![])).unwrap_err(),
        ReceiveError::NotARelayCell
    );
}

#[test]
fn data_flows_until_the_other_side_ends_it() {
    let mut far = Link::new(1, [2; 32]);
    let mut near = Link::new(1, [2; 32]);
    match download(&mut near, &sealed(&mut far, RelayCommand::Data, b"page")) {
        Download::Write { data, answers } => {
            assert_eq!(data, b"page".to_vec());
            assert!(answers.is_empty());
        }
        _ => panic!(),
    }
    assert!(matches!(download(&mut near, &sealed(&mut far, RelayCommand::SendMe, b"")), Download::Skip));
    assert!(matches!(download(&mut near, b"junk"), Download::Skip));
    assert!(matches!(download(&mut near, &gossip()), Download::Skip));
    assert!(matches!(download(&mut near, &cell(CellCommand::Padding, vec![])), Download::Skip));
    assert!(matches!(download(&mut near, &sealed(&mut far, RelayCommand::End, b"")), Download::Stop));
    near.backward.ciphers[0].used = KEYSTREAM_LEN;
    assert!(matches!(download(&mut near, &sealed(&mut far, RelayCommand::Data, b"")), Download::Exhausted));
}

#[test]
fn a_service_stops_at_the_first_thing_that_is_no_relay_cell() {
    let mut far = Link::new(1, [2; 32]);
    let mut near = Link::new(1, [2; 32]);
    let data = sealed(&mut far, RelayCommand::Data, b"q");
    assert!(matches!(serve(&mut near, &data), Download::Write { .. }));
    assert!(matches!(serve(&mut near, &sealed(&mut far, RelayCommand::SendMe, b"")), Download::Skip));
    assert!(matches!(serve(&mut near, &sealed(&mut far, RelayCommand::End, b"")), Download::Stop));
    assert!(matches!(serve(&mut near, b"junk"), Download::Stop));
    assert!(matches!(serve(&mut near, &gossip()), Download::Stop));
}

#[test]
fn uploads_are_data_cells_of_the_first_stream() {
    let mut near = Link::new(8, [3; 32]);
    let mut far = Link::new(8, [3; 32]);
    let packet = match upload_packet(&mut near, b"bytes") {
        Upload::Packet(packet) => packet,
        _ => panic!(),
    };
    match Message::decode(&payload_of(&packet)) {
        Some(Message::TorCell(cell)) => assert_eq!(cell.circ_id, 8),
        _ => panic!(),
    }
    let rc = recv_relay_cell(&mut far, &payload_of(&packet)).unwrap();
    assert_eq!((rc.stream_id, rc.command), (1, RelayCommand::Data));
    assert_eq!(rc.data, b"bytes".to_vec());
    near.forward.ciphers[0].used = KEYSTREAM_LEN;
    assert!(matches!(upload_packet(&mut near, b"bytes"), Upload::Exhausted));
}

#[test]
fn the_windows_hold_uploads_back() {
    let mut near = Link::new(8, [3; 32]);
    let mut far = Link::new(8, [3; 32]);
    let mut answers = Vec::new();
    let mut sent = Vec::new();
    let mut arrived = Vec::new();
    for i in 0..500u16 {
        assert!(can_upload(&near));
        let piece = i.to_be_bytes();
        sent.extend_from_slice(&piece);
        match upload_packet(&mut near, &piece) {
            Upload::Packet(packet) => match download(&mut far, &payload_of(&packet)) {
                Download::Write { data, answers: more } => {
                    arrived.extend_from_slice(&data);
                    answers.extend(more);
                }
                _ => panic!(),
            },
            _ => panic!(),
        }
    }
    assert_eq!(arrived, sent);
    assert!(!can_upload(&near));
    let used = near.forward.ciphers[0].used;
    assert!(matches!(upload_packet(&mut near, b"more"), Upload::Wait));
    assert_eq!(near.forward.ciphers[0].used, used);
    // The other end answered every hundredth cell for the circuit and every fiftieth for the stream.
    assert_eq!(answers.len(), 5 + 10);
    for packet in &answers {
        assert!(matches!(download(&mut near, &payload_of(packet)), Download::Skip));
    }
    assert_eq!((near.windows.circuit_package, near.windows.stream_package), (1000, 500));
    assert_eq!((far.windows.circuit_deliver, far.windows.stream_deliver), (1000, 500));
    assert!(matches!(upload_packet(&mut near, b"more"), Upload::Packet(_)));
}

#[test]
fn acknowledgements_beyond_counting_are_harmless() {
    let mut near = Link::new(8, [3; 32]);
    let mut far = Link::new(8, [3; 32]);
    for _ in 0..700 {
        let sendme = RelayCell::plain(0, RelayCommand::SendMe, vec![]);
        let packet = send_relay_cell(&mut far, &sendme).unwrap();
        assert!(matches!(download(&mut near, &payload_of(&packet)), Download::Skip));
    }
    assert_eq!(near.windows.circuit_package, 65535);
    assert_eq!(near.windows.stream_package, 500);
}

#[test]
fn the_host_stands_before_the_first_colon() {
    assert_eq!(server_host("10.0.0.1:443"), "10.0.0.1");
    assert_eq!(server_host("relay.example"), "relay.example");
    assert_eq!(server_host("[::1]:443"), "[");
    assert_eq!(server_host(":1"), "");
}
