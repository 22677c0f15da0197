use root::client::{establish_circuit, BuildError, CircuitBuilder};
use root::link::{recv_relay_cell, send_relay_cell, Link};
use root::crypto::{circuit_key, CircuitCipher, KEYSTREAM_LEN};
use root::relay::{
    begin_dialed, begin_resolved, create_with, exit_closed, exit_data, extend_answered,
    handle_create_cell, handle_packet, handle_relay_cell, handle_return, Action, BeginVerdict,
    Ending, ExitRead, Step,
};
use root::{
    Cell, CellCommand, Circuit, CircuitManager, Directory, ExitPolicy, Ipv4Addr, Ipv6Addr, Message,
    Packet, RelayCell, RelayCommand, SigningKey, SocketAddr,
};

fn addr(last: u8) -> SocketAddr {
    SocketAddr::V4 { ip: Ipv4Addr::new(198, 51, 100, last), port: 9001 }
}

fn payload_of(packet: &[u8]) -> Vec<u8> {
    Packet::decapsulate(packet).unwrap().payload
}

fn cell_of(packet: &[u8]) -> Cell {
    match Message::decode(&payload_of(packet)) {
        Some(Message::TorCell(cell)) => cell,
        _ => panic!(),
    }
}

fn only_send(step: &Step) -> (u64, Vec<u8>) {
    assert_eq!(step.end, Ending::Continue);
    match &step.actions[..] {
        [Action::Send { conn, packet }] => (*conn, packet.clone()),
        _ => panic!("{:?}", step),
    }
}

fn idle(step: &Step) -> bool {
    step.end == Ending::Continue && step.actions.is_empty()
}

/// A client with a circuit of one hop to a relay, over the connection `conn`.
fn connect(manager: &mut CircuitManager, circ_id: u32, conn: u64) -> CircuitBuilder {
    let mut directory = Directory::new();
    let (offer, packet) = establish_circuit(circ_id, vec![addr(1)]).unwrap();
    let step = handle_packet(manager, &mut directory, conn, &payload_of(&packet));
    let (to, answer) = only_send(&step);
    assert_eq!(to, conn);
    assert_eq!(cell_of(&answer).command, CellCommand::Created);
    assert_eq!(cell_of(&answer).circ_id, circ_id);
    offer.answered(&payload_of(&answer)).unwrap()
}

/// The client sends a relay cell, and the relay takes it.
fn tell(
    manager: &mut CircuitManager,
    client: &mut CircuitBuilder,
    conn: u64,
    stream_id: u16,
    command: RelayCommand,
    data: &[u8],
) -> Step {
    let cell = RelayCell::plain(stream_id, command, data.to_vec());
    let packet = send_relay_cell(&mut client.link, &cell).unwrap();
    let mut directory = Directory::new();
    handle_packet(manager, &mut directory, conn, &payload_of(&packet))
}

fn hear(client: &mut CircuitBuilder, packet: &[u8]) -> RelayCell {
    recv_relay_cell(&mut client.link, &payload_of(packet)).unwrap()
}

#[test]
fn a_handshake_gives_both_ends_the_same_ciphers() {
    let mut manager = CircuitManager::new();
    let client = connect(&mut manager, 7, 70);
    let circuit = manager.get_circuit(7).unwrap();
    assert_eq!(circuit.id, 7);
    assert_eq!(circuit.prev_hop_stream, Some(70));
    assert_eq!(circuit.forward_cipher.unwrap().key, client.link.forward.ciphers[0].key);
    assert_eq!(circuit.backward_cipher.unwrap().key, client.link.backward.ciphers[0].key);
    assert_eq!(circuit.package_window, 1000);
    assert_eq!(circuit.deliver_window, 1000);
    assert!(circuit.linked_circuit_id.is_none());
    let again = connect(&mut manager, 7, 71);
    assert_ne!(again.link.forward.ciphers[0].key, client.link.forward.ciphers[0].key);
    assert_eq!(manager.get_circuit(7).unwrap().prev_hop_stream, Some(71));
}

#[test]
fn a_given_key_decides_a_create() {
    let fresh = || {
        let rng = ring::rand::SystemRandom::new();
        ring::agreement::EphemeralPrivateKey::generate(&ring::agreement::X25519, &rng).unwrap()
    };
    let mut manager = CircuitManager::new();
    let sender = fresh();
    let payload = sender.compute_public_key().unwrap().as_ref().to_vec();
    // Without a key there is no circuit.
    assert!(create_with(&mut manager, 4, 40, &payload, None).is_none());
    assert!(create_with(&mut manager, 4, 40, &[0; 32], Some(fresh())).is_none());
    assert!(manager.get_circuit(4).is_none());

    let key = fresh();
    let public = key.compute_public_key().unwrap().as_ref().to_vec();
    let answer = create_with(&mut manager, 4, 40, &payload, Some(key)).unwrap();
    assert!(answer.closed.is_empty());
    let answer = cell_of(&answer.packet);
    assert_eq!((answer.circ_id, answer.command), (4, CellCommand::Created));
    assert_eq!(answer.payload, public);
    let peer = ring::agreement::UnparsedPublicKey::new(&ring::agreement::X25519, &public);
    let shared = ring::agreement::agree_ephemeral(sender, &peer, circuit_key).unwrap();
    let circuit = manager.get_circuit(4).unwrap();
    assert_eq!(circuit.forward_cipher.unwrap().key, shared);
    assert_eq!(circuit.prev_hop_stream, Some(40));
}

#[test]
fn malformed_creates_are_ignored() {
    let mut manager = CircuitManager::new();
    assert!(handle_create_cell(&mut manager, 1, 1, &[1; 31]).is_none());
    // A point of small order leads to no secret.
    assert!(handle_create_cell(&mut manager, 1, 1, &[0; 32]).is_none());
    assert!(manager.get_circuit(1).is_none());
    let mut directory = Directory::new();
    for command in [CellCommand::Padding, CellCommand::Created, CellCommand::Destroy] {
        let cell = Message::TorCell(Cell { circ_id: 1, command, payload: vec![1; 32] });
        assert!(idle(&handle_packet(&mut manager, &mut directory, 1, &cell.encode())));
    }
    assert!(idle(&handle_packet(&mut manager, &mut directory, 1, b"garbage")));
}

#[test]
fn cells_for_unknown_circuits_are_ignored() {
    let mut manager = CircuitManager::new();
    assert!(idle(&handle_relay_cell(&mut manager, 5, 1, vec![1, 2, 3])));
    let mut client = connect(&mut manager, 5, 1);
    // Noise on a circuit is ignored, and moves its keystream on.
    assert!(idle(&handle_relay_cell(&mut manager, 5, 1, vec![1, 2, 3])));
    assert_eq!(manager.get_circuit(5).unwrap().forward_cipher.unwrap().used, 3);
    client.link.forward.ciphers[0].used = 3;
    // Commands that a relay does not know are ignored as well.
    assert!(idle(&tell(&mut manager, &mut client, 1, 1, RelayCommand::Resolve, b"")));
    assert!(idle(&tell(&mut manager, &mut client, 1, 1, RelayCommand::Connected, b"")));
}

#[test]
fn circuits_are_extended_hop_by_hop() {
    let mut first = CircuitManager::new();
    let mut second = CircuitManager::new();
    let mut directory = Directory::new();
    let (offer, packet) = establish_circuit(9, vec![addr(1), addr(2)]).unwrap();
    let step = handle_packet(&mut first, &mut directory, 3, &payload_of(&packet));
    let (_, answer) = only_send(&step);
    let mut client = offer.answered(&payload_of(&answer)).unwrap();
    assert!(!client.is_complete());

    let (key, packet) = client.extend().unwrap();
    let step = handle_packet(&mut first, &mut directory, 3, &payload_of(&packet));
    let create = match &step.actions[..] {
        [Action::Extend { circ_id: 9, addr: to, packet }] => {
            assert_eq!(*to, addr(2));
            packet.clone()
        }
        _ => panic!("{:?}", step),
    };
    assert_eq!(cell_of(&create).command, CellCommand::Create);
    assert_eq!(cell_of(&create).payload.len(), 32);
    let step = handle_packet(&mut second, &mut directory, 8, &payload_of(&create));
    let (_, created) = only_send(&step);
    assert_eq!(second.get_circuit(9).unwrap().prev_hop_stream, Some(8));

    let step = extend_answered(&mut first, 9, 3, addr(2), 44, &payload_of(&created));
    let (conn, extended) = only_send(&step);
    assert_eq!(conn, 3);
    assert_eq!(first.get_circuit(9).unwrap().next_hop, Some(addr(2)));
    assert_eq!(first.get_circuit(9).unwrap().next_hop_stream, Some(44));
    client.extended(key, &payload_of(&extended)).unwrap();
    assert!(client.is_complete());
    // The new hop has a key of its own with the client.
    let link: Link = client.finish();
    assert_eq!(link.forward.ciphers.len(), 2);
    let hop = second.get_circuit(9).unwrap();
    assert_eq!(hop.forward_cipher.unwrap().key, link.forward.ciphers[1].key);
    assert_eq!(hop.backward_cipher.unwrap().key, link.backward.ciphers[1].key);
    assert_ne!(link.forward.ciphers[0].key, link.forward.ciphers[1].key);
}

/// The hops of a circuit: relay `i` has the circuit on the connection `10 * i`, and its next hop on
/// the connection `10 * i + 1`.
struct Path {
    relays: Vec<CircuitManager>,
    link: Link,
}

const ID: u32 = 5;

/// Carries what hop `hop` sends towards the client back over the earlier hops.
fn carry_back(relays: &mut [CircuitManager], hop: usize, packet: Vec<u8>) -> Vec<u8> {
    let mut packet = packet;
    for i in (0..hop).rev() {
        let next = 10 * i as u64 + 1;
        let step = handle_return(&mut relays[i], next, &payload_of(&packet));
        let (conn, out) = only_send(&step);
        assert_eq!(conn, 10 * i as u64);
        packet = out;
    }
    packet
}

/// Carries a packet of the client to the last hop. Returns what that hop makes of it; every earlier
/// hop does nothing but send it on.
fn carry_out(relays: &mut [CircuitManager], packet: Vec<u8>) -> Step {
    let mut packet = packet;
    let n = relays.len();
    for i in 0..n {
        let mut directory = Directory::new();
        let conn = 10 * i as u64;
        let step = handle_packet(&mut relays[i], &mut directory, conn, &payload_of(&packet));
        if i + 1 == n {
            return step;
        }
        let (to, out) = only_send(&step);
        assert_eq!(to, conn + 1);
        packet = out;
    }
    unreachable!()
}

fn build(hops: u8) -> Path {
    let mut relays = vec![CircuitManager::new()];
    let path: Vec<SocketAddr> = (1..=hops).map(addr).collect();
    let (offer, packet) = establish_circuit(ID, path).unwrap();
    let (_, answer) = only_send(&carry_out(&mut relays, packet));
    let mut client = offer.answered(&payload_of(&answer)).unwrap();
    while !client.is_complete() {
        let last = relays.len() - 1;
        let (key, packet) = client.extend().unwrap();
        let step = carry_out(&mut relays, packet);
        let (to, create) = match &step.actions[..] {
            [Action::Extend { circ_id: ID, addr, packet }] => (*addr, packet.clone()),
            _ => panic!("{:?}", step),
        };
        let mut hop = CircuitManager::new();
        let conn = 10 * (last as u64 + 1);
        let step = handle_packet(&mut hop, &mut Directory::new(), conn, &payload_of(&create));
        let (_, created) = only_send(&step);
        let step = extend_answered(
            &mut relays[last],
            ID,
            10 * last as u64,
            to,
            10 * last as u64 + 1,
            &payload_of(&created),
        );
        let (_, extended) = only_send(&step);
        let report = carry_back(&mut relays, last, extended);
        client.extended(key, &payload_of(&report)).unwrap();
        relays.push(hop);
    }
    Path { relays, link: client.finish() }
}

#[test]
fn only_the_last_hop_interprets_a_cell() {
    for hops in 1..=3u8 {
        let Path { mut relays, mut link } = build(hops);
        assert_eq!(link.forward.ciphers.len(), hops as usize);
        for (i, relay) in relays.iter().enumerate() {
            let circuit = relay.get_circuit(ID).unwrap();
            assert_eq!(circuit.forward_cipher.unwrap().key, link.forward.ciphers[i].key);
            assert_eq!(circuit.forward_cipher.unwrap().used, link.forward.ciphers[i].used);
            assert_eq!(circuit.backward_cipher.unwrap().used, link.backward.ciphers[i].used);
        }
        let begin = RelayCell::plain(1, RelayCommand::Begin, b"example.org:80".to_vec());
        let packet = send_relay_cell(&mut link, &begin).unwrap();
        let step = carry_out(&mut relays, packet);
        assert!(matches!(&step.actions[..], [Action::Begin { circ_id: ID, stream_id: 1, .. }]));
        // The answer comes back through all layers.
        let last = relays.len() - 1;
        let step = begin_dialed(&mut relays[last], ID, 10 * last as u64, 1, Some(900));
        let (_, packet) = only_send(&step);
        let packet = carry_back(&mut relays, last, packet);
        let heard = recv_relay_cell(&mut link, &payload_of(&packet)).unwrap();
        assert_eq!((heard.command, heard.stream_id), (RelayCommand::Connected, 1));
    }
}

#[test]
fn cells_from_elsewhere_are_not_sent_back() {
    let Path { mut relays, .. } = build(2);
    let cell = |circ_id: u32, command: CellCommand| {
        Message::TorCell(Cell { circ_id, command, payload: vec![1; 30] }).encode()
    };
    let used = |m: &CircuitManager| m.get_circuit(ID).unwrap().backward_cipher.unwrap().used;
    let before = used(&relays[0]);
    assert!(idle(&handle_return(&mut relays[0], 77, &cell(ID, CellCommand::Relay))));
    assert!(idle(&handle_return(&mut relays[0], 1, &cell(ID + 1, CellCommand::Relay))));
    assert!(idle(&handle_return(&mut relays[0], 1, &cell(ID, CellCommand::Created))));
    assert!(idle(&handle_return(&mut relays[0], 1, b"junk")));
    assert_eq!(used(&relays[0]), before);
    only_send(&handle_return(&mut relays[0], 1, &cell(ID, CellCommand::Relay)));
    assert_eq!(used(&relays[0]), before + 30);
}

#[test]
fn circuits_that_are_replaced_leave_no_connections() {
    let mut manager = CircuitManager::new();
    let mut client = connect(&mut manager, 2, 1);
    let created = Message::TorCell(Cell { circ_id: 2, command: CellCommand::Created, payload: vec![] });
    hear(&mut client, &only_send(&extend_answered(&mut manager, 2, 1, addr(2), 66, &created.encode())).1);
    // A new next hop takes the place of the former one.
    let step = extend_answered(&mut manager, 2, 1, addr(3), 67, &created.encode());
    assert!(matches!(&step.actions[..], [Action::Close { conn: 66 }, Action::Send { conn: 1, .. }]));
    begin_dialed(&mut manager, 2, 1, 6, Some(600));
    begin_dialed(&mut manager, 2, 1, 7, Some(700));
    let (_, packet) = establish_circuit(2, vec![addr(1)]).unwrap();
    let step = handle_packet(&mut manager, &mut Directory::new(), 9, &payload_of(&packet));
    let mut closed = Vec::new();
    for action in &step.actions[..3] {
        match action {
            Action::Close { conn } => closed.push(*conn),
            _ => panic!("{:?}", step),
        }
    }
    closed.sort();
    assert_eq!(closed, vec![67, 600, 700]);
    assert!(matches!(&step.actions[3..], [Action::Send { conn: 9, .. }]));
}

#[test]
fn data_from_an_exit_goes_back_as_far_as_the_windows_allow() {
    let mut manager = CircuitManager::new();
    let mut client = connect(&mut manager, 2, 1);
    let (_, packet) = only_send(&begin_dialed(&mut manager, 2, 1, 6, Some(600)));
    hear(&mut client, &packet);
    assert!(matches!(exit_data(&mut manager, 2, 6, 601, b"x"), ExitRead::Gone));
    assert!(matches!(exit_data(&mut manager, 2, 7, 600, b"x"), ExitRead::Gone));
    assert!(matches!(exit_data(&mut manager, 3, 6, 600, b"x"), ExitRead::Gone));
    for i in 0..500u16 {
        match exit_data(&mut manager, 2, 6, 600, &i.to_be_bytes()) {
            ExitRead::Send(step) => {
                let (conn, packet) = only_send(&step);
                assert_eq!(conn, 1);
                let heard = hear(&mut client, &packet);
                assert_eq!((heard.command, heard.stream_id), (RelayCommand::Data, 6));
                assert_eq!(heard.data, i.to_be_bytes().to_vec());
            }
            _ => panic!(),
        }
    }
    assert!(matches!(exit_data(&mut manager, 2, 6, 600, b"x"), ExitRead::Wait));
    assert!(idle(&tell(&mut manager, &mut client, 1, 6, RelayCommand::SendMe, b"")));
    assert!(matches!(exit_data(&mut manager, 2, 6, 600, b"x"), ExitRead::Send(_)));
    assert_eq!(manager.get_circuit(2).unwrap().package_window, 499);
    assert_eq!(manager.get_circuit(2).unwrap().streams.get(&6).unwrap().package_window, 49);
}

#[test]
fn an_exit_that_ends_is_reported() {
    let mut manager = CircuitManager::new();
    let mut client = connect(&mut manager, 2, 1);
    let (_, packet) = only_send(&begin_dialed(&mut manager, 2, 1, 6, Some(600)));
    hear(&mut client, &packet);
    assert!(idle(&exit_closed(&mut manager, 2, 6, 601)));
    let step = exit_closed(&mut manager, 2, 6, 600);
    assert!(matches!(&step.actions[..], [Action::Close { conn: 600 }, Action::Send { conn: 1, .. }]));
    if let Action::Send { packet, .. } = &step.actions[1] {
        let heard = hear(&mut client, packet);
        assert_eq!((heard.command, heard.stream_id), (RelayCommand::End, 6));
    }
    assert!(idle(&exit_closed(&mut manager, 2, 6, 600)));
}

#[test]
fn hops_that_fail_are_not_joined() {
    let mut manager = CircuitManager::new();
    let mut client = connect(&mut manager, 2, 1);
    assert!(idle(&tell(&mut manager, &mut client, 1, 0, RelayCommand::Extend, &[1, 2, 3, 4, 5])));
    let refusal = Message::TorCell(Cell { circ_id: 2, command: CellCommand::Destroy, payload: vec![] });
    let given_up = |step: Step| matches!(&step.actions[..], [Action::Close { conn: 5 }]);
    assert!(given_up(extend_answered(&mut manager, 2, 1, addr(2), 5, &refusal.encode())));
    assert!(given_up(extend_answered(&mut manager, 2, 1, addr(2), 5, b"?")));
    assert!(manager.get_circuit(2).unwrap().next_hop.is_none());
    let created = Message::TorCell(Cell { circ_id: 2, command: CellCommand::Created, payload: vec![] });
    assert!(given_up(extend_answered(&mut manager, 99, 1, addr(2), 5, &created.encode())));
}

#[test]
fn unrecognized_cells_go_to_the_next_hop() {
    let mut manager = CircuitManager::new();
    let mut client = connect(&mut manager, 2, 1);
    let mut cell = RelayCell::plain(5, RelayCommand::Data, b"onward".to_vec());
    cell.recognized = 1;
    let plain = cell.encode();
    let send = |manager: &mut CircuitManager, client: &mut CircuitBuilder| {
        let packet = send_relay_cell(&mut client.link, &cell).unwrap();
        handle_packet(manager, &mut Directory::new(), 1, &payload_of(&packet))
    };
    assert!(idle(&send(&mut manager, &mut client)));
    let created = Message::TorCell(Cell { circ_id: 2, command: CellCommand::Created, payload: vec![] });
    extend_answered(&mut manager, 2, 1, addr(2), 66, &created.encode());
    let (conn, packet) = only_send(&send(&mut manager, &mut client));
    assert_eq!(conn, 66);
    let out = cell_of(&packet);
    assert_eq!((out.circ_id, out.command), (2, CellCommand::Relay));
    assert_eq!(out.payload, plain);
    // So does what is no relay cell at all: it is under the layers of later hops.
    let used = manager.get_circuit(2).unwrap().forward_cipher.unwrap().used;
    let step = handle_relay_cell(&mut manager, 2, 1, vec![1, 2, 3]);
    assert_eq!(only_send(&step).0, 66);
    assert_eq!(manager.get_circuit(2).unwrap().forward_cipher.unwrap().used, used + 3);
}

#[test]
fn exits_are_decided_by_the_policy() {
    let mut manager = CircuitManager::new();
    let mut client = connect(&mut manager, 2, 1);
    let step = tell(&mut manager, &mut client, 1, 1, RelayCommand::Begin, b"example.org:443");
    match &step.actions[..] {
        [Action::Begin { circ_id: 2, stream_id: 1, target }] => assert_eq!(target, "example.org:443"),
        _ => panic!("{:?}", step),
    }
    let v6 = SocketAddr::V6 {
        ip6: Ipv6Addr { a: 1, b: 0, c: 0, d: 0, e: 0, f: 0, g: 0, h: 1 },
        port: 443,
        flowinfo: 0,
        scope_id: 0,
    };
    let open = ExitPolicy::parse("accept *:9001").unwrap();
    let closed = ExitPolicy::reject_all();
    let refusals: [(&ExitPolicy, Option<&[SocketAddr]>); 4] = [
        (&closed, Some(&[addr(1)])),
        (&open, None),
        (&open, Some(&[v6])),
        (&open, Some(&[])),
    ];
    for (policy, resolved) in refusals {
        match begin_resolved(&mut manager, policy, 2, 1, 1, resolved) {
            BeginVerdict::Refused(step) => {
                let (_, packet) = only_send(&step);
                let end = hear(&mut client, &packet);
                assert_eq!(end.command, RelayCommand::End);
                assert_eq!(end.stream_id, 1);
                assert_eq!(end.data, b"exit policy rejected".to_vec());
            }
            BeginVerdict::Dial(_) => panic!(),
        }
    }
    // The first IPv4 address decides, and is the one that is dialed.
    match begin_resolved(&mut manager, &open, 2, 1, 1, Some(&[v6, addr(1), addr(2)])) {
        BeginVerdict::Dial(to) => assert_eq!(to, addr(1)),
        BeginVerdict::Refused(_) => panic!(),
    }
    let wrong_port = SocketAddr::V4 { ip: Ipv4Addr::new(1, 1, 1, 1), port: 80 };
    assert!(matches!(
        begin_resolved(&mut manager, &open, 2, 1, 1, Some(&[wrong_port, addr(1)])),
        BeginVerdict::Refused(_)
    ));
}

#[test]
fn streams_open_carry_data_and_close() {
    let mut manager = CircuitManager::new();
    let mut client = connect(&mut manager, 2, 1);
    let (_, packet) = only_send(&begin_dialed(&mut manager, 2, 1, 6, None));
    let end = hear(&mut client, &packet);
    assert_eq!((end.command, end.data), (RelayCommand::End, b"connect failed".to_vec()));

    let (_, packet) = only_send(&begin_dialed(&mut manager, 2, 1, 6, Some(600)));
    let connected = hear(&mut client, &packet);
    assert_eq!((connected.command, connected.stream_id), (RelayCommand::Connected, 6));
    assert_eq!(manager.get_circuit(2).unwrap().streams.get(&6).unwrap().deliver_window, 500);

    let step = tell(&mut manager, &mut client, 1, 6, RelayCommand::Data, b"GET /");
    match &step.actions[..] {
        [Action::Write { conn: 600, data }] => assert_eq!(data, b"GET /"),
        _ => panic!("{:?}", step),
    }
    // Data for a stream that is not there still counts for the circuit.
    assert!(idle(&tell(&mut manager, &mut client, 1, 7, RelayCommand::Data, b"?")));
    assert_eq!(manager.get_circuit(2).unwrap().deliver_window, 998);
    assert_eq!(manager.get_circuit(2).unwrap().streams.get(&6).unwrap().deliver_window, 499);

    // The same number again closes the stream that had it.
    let step = begin_dialed(&mut manager, 2, 1, 6, Some(601));
    assert!(matches!(&step.actions[..], [Action::Close { conn: 600 }, Action::Send { .. }]));
    if let Action::Send { packet, .. } = &step.actions[1] {
        assert_eq!(hear(&mut client, packet).command, RelayCommand::Connected);
    }
    let step = tell(&mut manager, &mut client, 1, 6, RelayCommand::End, b"");
    assert!(matches!(&step.actions[..], [Action::Close { conn: 601 }]));
    assert!(idle(&tell(&mut manager, &mut client, 1, 6, RelayCommand::End, b"")));
    let step = begin_dialed(&mut manager, 99, 1, 6, Some(1));
    assert!(matches!(&step.actions[..], [Action::Close { conn: 1 }]));
    assert!(idle(&begin_dialed(&mut manager, 99, 1, 6, None)));
}

#[test]
fn windows_are_opened_again_in_time() {
    let mut manager = CircuitManager::new();
    let mut client = connect(&mut manager, 2, 1);
    let (_, packet) = only_send(&begin_dialed(&mut manager, 2, 1, 6, Some(600)));
    hear(&mut client, &packet);
    let (mut for_circuit, mut for_stream) = (0, 0);
    for i in 1..=1200 {
        let step = tell(&mut manager, &mut client, 1, 6, RelayCommand::Data, &[1]);
        assert_eq!(step.end, Ending::Continue);
        let mut written = 0;
        for action in &step.actions {
            match action {
                Action::Write { .. } => written += 1,
                Action::Send { packet, .. } => {
                    let sendme = hear(&mut client, packet);
                    assert_eq!(sendme.command, RelayCommand::SendMe);
                    if sendme.stream_id == 0 {
                        for_circuit += 1;
                        assert_eq!(i % 100, 0);
                    } else {
                        for_stream += 1;
                        assert_eq!(i % 50, 0);
                    }
                }
                _ => panic!(),
            }
        }
        assert_eq!(written, 1);
        let circuit = manager.get_circuit(2).unwrap();
        assert!(circuit.deliver_window > 900 && circuit.deliver_window <= 1000);
        let window = circuit.streams.get(&6).unwrap().deliver_window;
        assert!(window > 450 && window <= 500);
    }
    assert_eq!((for_circuit, for_stream), (12, 24));
}

#[test]
fn sendme_opens_the_package_windows() {
    let mut manager = CircuitManager::new();
    let mut client = connect(&mut manager, 2, 1);
    let (_, packet) = only_send(&begin_dialed(&mut manager, 2, 1, 6, Some(600)));
    hear(&mut client, &packet);
    assert!(idle(&tell(&mut manager, &mut client, 1, 0, RelayCommand::SendMe, b"")));
    assert!(idle(&tell(&mut manager, &mut client, 1, 6, RelayCommand::SendMe, b"")));
    assert!(idle(&tell(&mut manager, &mut client, 1, 7, RelayCommand::SendMe, b"")));
    let circuit = manager.get_circuit(2).unwrap();
    assert_eq!(circuit.package_window, 1100);
    assert_eq!(circuit.streams.get(&6).unwrap().package_window, 550);
    // 65500 is the last multiple that fits.
    for _ in 0..644 {
        assert!(idle(&tell(&mut manager, &mut client, 1, 0, RelayCommand::SendMe, b"")));
    }
    assert_eq!(manager.get_circuit(2).unwrap().package_window, 65500);
    let step = tell(&mut manager, &mut client, 1, 0, RelayCommand::SendMe, b"");
    assert_eq!(step.end, Ending::Exhausted);
    assert_eq!(manager.get_circuit(2).unwrap().package_window, 65500);
}

#[test]
fn a_used_up_keystream_ends_the_connection() {
    let mut manager = CircuitManager::new();
    let spent = CircuitCipher { key: [1; 32], used: KEYSTREAM_LEN };
    manager.add_circuit(Circuit::fresh(4, Some(1), spent, spent));
    let step = handle_relay_cell(&mut manager, 4, 1, vec![0]);
    assert_eq!(step.end, Ending::Exhausted);
    assert!(step.actions.is_empty());
    let step = begin_dialed(&mut manager, 4, 1, 1, Some(9));
    assert_eq!(step.end, Ending::Exhausted);
}

#[test]
fn a_circuit_without_a_cipher_is_not_read() {
    let mut manager = CircuitManager::new();
    let cipher = CircuitCipher::new([1; 32]);
    let mut circuit = Circuit::fresh(4, Some(1), cipher, cipher);
    circuit.forward_cipher = None;
    manager.add_circuit(circuit);
    assert!(idle(&handle_relay_cell(&mut manager, 4, 1, vec![0; 40])));
    // Answers on a circuit without a backward cipher are in the clear.
    let mut circuit = Circuit::fresh(5, Some(1), cipher, cipher);
    circuit.backward_cipher = None;
    manager.add_circuit(circuit);
    let (_, packet) = only_send(&begin_dialed(&mut manager, 5, 1, 1, Some(9)));
    let clear = RelayCell::decode(&cell_of(&packet).payload).unwrap();
    assert_eq!(clear.command, RelayCommand::Connected);
}

#[test]
fn introductions_are_forwarded_unchanged() {
    let mut manager = CircuitManager::new();
    let mut service = connect(&mut manager, 10, 100);
    let mut client = connect(&mut manager, 20, 200);
    let key = SigningKey::from_bytes([4; 32]).verifying_key().to_bytes();

    let mut data = key.to_vec();
    data.extend_from_slice(b"where to meet");
    assert!(idle(&tell(&mut manager, &mut client, 200, 0, RelayCommand::Introduce1, &data)));
    assert!(idle(&tell(&mut manager, &mut service, 100, 0, RelayCommand::EstablishIntro, &key[..31])));
    let mut no_point = [0u8; 32];
    no_point[0] = 2;
    assert!(idle(&tell(&mut manager, &mut service, 100, 0, RelayCommand::EstablishIntro, &no_point)));

    let step = tell(&mut manager, &mut service, 100, 0, RelayCommand::EstablishIntro, &key);
    let (conn, packet) = only_send(&step);
    assert_eq!(conn, 100);
    assert_eq!(hear(&mut service, &packet).command, RelayCommand::IntroEstablished);

    let step = tell(&mut manager, &mut client, 200, 0, RelayCommand::Introduce1, &data);
    let (conn, packet) = only_send(&step);
    assert_eq!(conn, 100);
    assert_eq!(cell_of(&packet).circ_id, 10);
    let introduced = hear(&mut service, &packet);
    assert_eq!(introduced.command, RelayCommand::Introduce2);
    assert_eq!(introduced.data, data);
    assert!(idle(&tell(&mut manager, &mut client, 200, 0, RelayCommand::Introduce1, &key[..31])));
}

#[test]
fn a_rendezvous_links_two_circuits() {
    let mut manager = CircuitManager::new();
    let mut client = connect(&mut manager, 20, 200);
    let mut service = connect(&mut manager, 30, 300);
    let cookie = [7u8; 20];
    let mut coming = cookie.to_vec();
    coming.extend_from_slice(&[5; 32]);

    assert!(idle(&tell(&mut manager, &mut service, 300, 0, RelayCommand::Rendezvous1, &coming)));
    assert!(idle(&tell(&mut manager, &mut client, 200, 0, RelayCommand::EstablishRendezvous, &[7; 19])));
    let step = tell(&mut manager, &mut client, 200, 0, RelayCommand::EstablishRendezvous, &cookie);
    let (_, packet) = only_send(&step);
    assert_eq!(hear(&mut client, &packet).command, RelayCommand::RendezvousEstablished);

    assert!(idle(&tell(&mut manager, &mut service, 300, 0, RelayCommand::Rendezvous1, &cookie[..19])));
    let step = tell(&mut manager, &mut service, 300, 0, RelayCommand::Rendezvous1, &coming);
    let (conn, packet) = only_send(&step);
    assert_eq!(conn, 200);
    let told = hear(&mut client, &packet);
    assert_eq!(told.command, RelayCommand::Rendezvous2);
    assert_eq!(told.data, vec![5; 32]);
    assert_eq!(manager.get_circuit(20).unwrap().linked_circuit_id, Some(30));
    assert_eq!(manager.get_circuit(30).unwrap().linked_circuit_id, Some(20));

    // From now on the relay passes cells across, whatever they are.
    let step = tell(&mut manager, &mut client, 200, 1, RelayCommand::Data, b"hello service");
    let (conn, packet) = only_send(&step);
    assert_eq!(conn, 300);
    assert_eq!(cell_of(&packet).circ_id, 30);
    let heard = hear(&mut service, &packet);
    assert_eq!((heard.command, heard.stream_id), (RelayCommand::Data, 1));
    assert_eq!(heard.data, b"hello service".to_vec());
    let step = tell(&mut manager, &mut service, 300, 1, RelayCommand::Begin, b"hello client");
    let (conn, packet) = only_send(&step);
    assert_eq!(conn, 200);
    let heard = hear(&mut client, &packet);
    assert_eq!((heard.command, heard.data), (RelayCommand::Begin, b"hello client".to_vec()));
    assert_eq!(manager.get_circuit(20).unwrap().deliver_window, 1000);
}

#[test]
fn cells_may_lead_back_to_their_own_circuit() {
    let mut manager = CircuitManager::new();
    let mut both = connect(&mut manager, 20, 200);
    let key = SigningKey::from_bytes([4; 32]).verifying_key().to_bytes();
    let step = tell(&mut manager, &mut both, 200, 0, RelayCommand::EstablishIntro, &key);
    hear(&mut both, &only_send(&step).1);
    let step = tell(&mut manager, &mut both, 200, 0, RelayCommand::Introduce1, &key);
    assert_eq!(hear(&mut both, &only_send(&step).1).command, RelayCommand::Introduce2);
    let step = tell(&mut manager, &mut both, 200, 0, RelayCommand::EstablishRendezvous, &[1; 20]);
    hear(&mut both, &only_send(&step).1);
    let step = tell(&mut manager, &mut both, 200, 0, RelayCommand::Rendezvous1, &[1; 20]);
    assert_eq!(hear(&mut both, &only_send(&step).1).command, RelayCommand::Rendezvous2);
    assert_eq!(manager.get_circuit(20).unwrap().linked_circuit_id, Some(20));
    let step = tell(&mut manager, &mut both, 200, 1, RelayCommand::Data, b"x");
    assert_eq!(hear(&mut both, &only_send(&step).1).data, b"x".to_vec());
}

#[test]
fn circuits_are_not_built_over_ipv6() {
    let v6 = SocketAddr::V6 {
        ip6: Ipv6Addr { a: 1, b: 0, c: 0, d: 0, e: 0, f: 0, g: 0, h: 1 },
        port: 443,
        flowinfo: 0,
        scope_id: 0,
    };
    let mut client = CircuitBuilder::new(1, vec![addr(1), v6], [1; 32]);
    assert_eq!(client.extend().unwrap_err(), BuildError::Ipv6NotSupported);
}
