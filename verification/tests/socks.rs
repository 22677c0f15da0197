use root::hidden_service::HiddenService;
use root::link::{recv_relay_cell, send_relay_cell, Link};
use root::socks::{Choices, Event, Leg, Next, Session, SocksStep, State};
use root::{
    Directory, Ipv4Addr, Ipv6Addr, Packet, RelayCell, RelayCommand, RelayDescriptor, SigningKey,
    SocketAddr,
};

fn addr(last: u8) -> SocketAddr {
    SocketAddr::V4 { ip: Ipv4Addr::new(192, 0, 2, last), port: 700 }
}

fn choices(order: Vec<SocketAddr>) -> Choices {
    Choices { order, circ_id: 55, cookie: [3; 20] }
}

fn bytes(data: &[u8]) -> Event {
    Event::Bytes { complete: true, data: data.to_vec() }
}

fn reply(code: u8) -> Vec<u8> {
    vec![5, code, 0, 1, 0, 0, 0, 0, 0, 0]
}

fn closes_with(step: &SocksStep, write: &[u8]) -> bool {
    step.write == write && matches!(step.next, Next::Close)
}

fn payload_of(packet: &[u8]) -> Vec<u8> {
    Packet::decapsulate(packet).unwrap().payload
}

/// A session that has been asked for a target, and the step that came of it.
fn asked(directory: &Directory, name: &[u8], order: Vec<SocketAddr>) -> (Session, SocksStep) {
    let mut session = Session::new();
    session.advance(directory, bytes(&[5, 1]), choices(vec![]));
    session.advance(directory, bytes(&[0]), choices(vec![]));
    session.advance(directory, bytes(&[5, 1, 0, 3]), choices(vec![]));
    let step = session.advance(directory, bytes(&[name.len() as u8]), choices(vec![]));
    assert!(matches!(step.next, Next::Read(n) if n == name.len() + 2));
    let mut data = name.to_vec();
    data.extend_from_slice(&[0x01, 0xbb]);
    let step = session.advance(directory, bytes(&data), choices(order));
    (session, step)
}

#[test]
fn the_greeting_is_answered_without_authentication() {
    let directory = Directory::new();
    let mut session = Session::new();
    let step = session.advance(&directory, bytes(&[5, 3]), choices(vec![]));
    assert!(step.write.is_empty());
    assert!(matches!(step.next, Next::Read(3)));
    // That the methods cannot be read does not matter.
    let event = Event::Bytes { complete: false, data: vec![0; 3] };
    let step = session.advance(&directory, event, choices(vec![]));
    assert_eq!(step.write, vec![5, 0]);
    assert!(matches!(step.next, Next::Read(4)));
}

#[test]
fn a_session_starts_with_the_greeting() {
    let (session, step) = Session::start();
    assert!(matches!(session.state, State::Greeting));
    assert!(step.write.is_empty());
    assert!(matches!(step.next, Next::Read(2)));
}

#[test]
fn names_with_a_colon_are_told_apart_by_their_end() {
    let directory = Directory::new();
    // A name that ends in `.root` does not go to an exit, whatever stands in front.
    let (_, step) = asked(&directory, b"a:b.root", vec![addr(1)]);
    assert!(closes_with(&step, &reply(4)));
    let (_, step) = asked(&directory, b"x.root:y", vec![addr(1)]);
    assert!(matches!(step.next, Next::Build { leg: Leg::Main, .. }));
}

#[test]
fn strangers_are_closed_without_a_word() {
    let directory = Directory::new();
    let step = Session::new().advance(&directory, bytes(&[4, 1]), choices(vec![]));
    assert!(closes_with(&step, &[]));
    let event = Event::Bytes { complete: false, data: vec![5, 0] };
    let step = Session::new().advance(&directory, event, choices(vec![]));
    assert!(closes_with(&step, &[]));
    for (complete, request) in [(true, [5, 2, 0, 1]), (false, [5, 1, 0, 1])] {
        let mut session = Session::new();
        session.advance(&directory, bytes(&[5, 0]), choices(vec![]));
        session.advance(&directory, bytes(&[]), choices(vec![]));
        let event = Event::Bytes { complete, data: request.to_vec() };
        assert!(closes_with(&session.advance(&directory, event, choices(vec![])), &[]));
    }
    let step = Session::new().advance(&directory, Event::Built(None), choices(vec![]));
    assert!(closes_with(&step, &[]));
}

#[test]
fn other_kinds_of_address_are_not_supported() {
    let directory = Directory::new();
    let mut session = Session::new();
    session.advance(&directory, bytes(&[5, 0]), choices(vec![]));
    session.advance(&directory, bytes(&[]), choices(vec![]));
    let step = session.advance(&directory, bytes(&[5, 1, 0, 4]), choices(vec![]));
    assert!(closes_with(&step, &reply(8)));
    assert!(matches!(session.state, State::Closed));
}

#[test]
fn browsing_needs_relays() {
    let (_, step) = asked(&Directory::new(), b"example.com", vec![]);
    assert!(closes_with(&step, &reply(1)));
}

#[test]
fn browsing_goes_over_three_hops_to_an_exit() {
    let directory = Directory::new();
    let order: Vec<SocketAddr> = (1..6).map(addr).collect();
    let (mut session, step) = asked(&directory, b"example.com", order.clone());
    match step.next {
        Next::Build { leg: Leg::Main, circ_id: 55, path } => assert_eq!(path, order[..3].to_vec()),
        _ => panic!(),
    }
    let step = session.advance(&directory, Event::Built(Some(Link::new(1, [1; 32]))), choices(vec![]));
    let packet = match step.next {
        Next::Exchange { leg: Leg::Main, packet, seconds: None } => packet,
        _ => panic!(),
    };
    let begin = recv_relay_cell(&mut Link::new(55, [1; 32]), &payload_of(&packet)).unwrap();
    assert_eq!((begin.command, begin.stream_id), (RelayCommand::Begin, 1));
    assert_eq!(begin.data, b"example.com:443".to_vec());

    let mut exit = Link::new(55, [1; 32]);
    let connected = RelayCell::plain(1, RelayCommand::Connected, vec![]);
    let answer = payload_of(&send_relay_cell(&mut exit, &connected).unwrap());
    let event = Event::Exchanged { sent: true, payload: Some(answer) };
    let step = session.advance(&directory, event, choices(vec![]));
    assert_eq!(step.write, reply(0));
    assert!(matches!(step.next, Next::Flow));
    match session.state {
        State::Flowing { link } => {
            assert_eq!(link.circ_id, 55);
            assert_eq!(link.backward.ciphers[0].used, exit.forward.ciphers[0].used);
            assert!(link.forward.ciphers[0].used > 0);
        }
        _ => panic!(),
    }
}

#[test]
fn begin_is_sent_under_the_layers_of_all_hops() {
    let directory = Directory::new();
    let three_hops = || {
        let mut link = Link::new(55, [1; 32]);
        link.push_hop([2; 32]);
        link.push_hop([3; 32]);
        link
    };
    let (mut session, _) = asked(&directory, b"example.com", (1..6).map(addr).collect());
    let step = session.advance(&directory, Event::Built(Some(three_hops())), choices(vec![]));
    let packet = match step.next {
        Next::Exchange { packet, .. } => payload_of(&packet),
        _ => panic!(),
    };
    // The first hop alone cannot read it, all hops together can.
    assert!(recv_relay_cell(&mut Link::new(55, [1; 32]), &packet).is_err());
    let begin = recv_relay_cell(&mut three_hops(), &packet).unwrap();
    assert_eq!(begin.command, RelayCommand::Begin);
}

#[test]
fn a_failed_connection_is_answered() {
    let directory = Directory::new();
    let (mut session, _) = asked(&directory, b"example.com", vec![addr(1)]);
    let step = session.advance(&directory, Event::Built(None), choices(vec![]));
    assert!(closes_with(&step, &reply(1)));

    let mut refused = Link::new(55, [1; 32]);
    let end = RelayCell::plain(1, RelayCommand::End, b"connect failed".to_vec());
    let ended = payload_of(&send_relay_cell(&mut refused, &end).unwrap());
    for (sent, payload, code) in
        [(false, None, 1), (true, None, 5), (true, Some(ended), 5), (true, Some(vec![1]), 5)]
    {
        let (mut session, _) = asked(&directory, b"example.com", vec![addr(1)]);
        session.advance(&directory, Event::Built(Some(Link::new(1, [1; 32]))), choices(vec![]));
        let step = session.advance(&directory, Event::Exchanged { sent, payload }, choices(vec![]));
        assert!(closes_with(&step, &reply(code)));
    }
}

#[test]
fn ipv4_targets_are_written_with_dots() {
    let directory = Directory::new();
    let mut session = Session::new();
    session.advance(&directory, bytes(&[5, 0]), choices(vec![]));
    session.advance(&directory, bytes(&[]), choices(vec![]));
    let step = session.advance(&directory, bytes(&[5, 1, 0, 1]), choices(vec![]));
    assert!(matches!(step.next, Next::Read(6)));
    session.advance(&directory, bytes(&[93, 184, 216, 34, 0, 80]), choices(vec![addr(1)]));
    match session.state {
        State::Building { target, .. } => {
            assert_eq!(target.iter().collect::<String>(), "93.184.216.34:80");
        }
        _ => panic!(),
    }
}

fn service() -> (Directory, SigningKey, String) {
    let key = SigningKey::from_bytes([8; 32]);
    let mut service = HiddenService::new(key);
    service.introduction_points.push(addr(100));
    service.introduction_points.push(addr(101));
    let mut directory = Directory::new();
    assert!(service.publish(&mut directory));
    (directory, key, service.address())
}

#[test]
fn unknown_services_are_unreachable() {
    let (directory, _, address) = service();
    for name in ["nothing.root", "a1.root"] {
        let (_, step) = asked(&directory, name.as_bytes(), vec![addr(1)]);
        assert!(closes_with(&step, &reply(4)));
    }
    let stranger = root::identity::address_of(&SigningKey::from_bytes([1; 32]).verifying_key());
    let (_, step) = asked(&directory, stranger.as_bytes(), vec![addr(1)]);
    assert!(closes_with(&step, &reply(4)));
    let (_, step) = asked(&directory, address.as_bytes(), vec![]);
    assert!(closes_with(&step, &reply(1)));
    // A service without introduction points.
    let lonely = HiddenService::new(SigningKey::from_bytes([2; 32]));
    let mut directory = Directory::new();
    lonely.publish(&mut directory);
    let (_, step) = asked(&directory, lonely.address().as_bytes(), vec![addr(1)]);
    assert!(closes_with(&step, &reply(4)));
}

#[test]
fn a_service_is_met_at_a_rendezvous_point() {
    let (directory, key, address) = service();
    let order: Vec<SocketAddr> = (1..6).map(addr).collect();
    let (mut session, step) = asked(&directory, address.as_bytes(), order);
    match step.next {
        Next::Build { leg: Leg::Main, circ_id: 55, path } => {
            assert_eq!(path, vec![addr(2), addr(3), addr(1)]);
        }
        _ => panic!(),
    }
    // The rendezvous point learns the cookie.
    let step = session.advance(&directory, Event::Built(Some(Link::new(1, [1; 32]))), choices(vec![]));
    let packet = match step.next {
        Next::Exchange { leg: Leg::Main, packet, seconds: None } => packet,
        _ => panic!(),
    };
    let cell = recv_relay_cell(&mut Link::new(55, [1; 32]), &payload_of(&packet)).unwrap();
    assert_eq!(cell.command, RelayCommand::EstablishRendezvous);
    assert_eq!(cell.data, vec![3; 20]);

    // Then an introduction point is asked.
    let mut rp = Link::new(55, [1; 32]);
    let established = RelayCell::plain(0, RelayCommand::RendezvousEstablished, vec![]);
    let answer = payload_of(&send_relay_cell(&mut rp, &established).unwrap());
    let event = Event::Exchanged { sent: true, payload: Some(answer) };
    let step = session.advance(
        &directory,
        event,
        Choices { order: vec![addr(101), addr(100)], circ_id: 66, cookie: [9; 20] },
    );
    match step.next {
        Next::Build { leg: Leg::Intro, circ_id: 66, path } => assert_eq!(path, vec![addr(101)]),
        _ => panic!(),
    }
    let step = session.advance(&directory, Event::Built(Some(Link::new(1, [2; 32]))), choices(vec![]));
    let packet = match step.next {
        Next::Exchange { leg: Leg::Intro, packet, seconds: Some(30) } => packet,
        _ => panic!(),
    };
    let cell = recv_relay_cell(&mut Link::new(55, [2; 32]), &payload_of(&packet)).unwrap();
    assert_eq!(cell.command, RelayCommand::Introduce1);
    let mut expected = key.verifying_key().to_bytes().to_vec();
    expected.extend_from_slice(&[192, 0, 2, 1, 0x02, 0xbc]);
    expected.extend_from_slice(&[3; 20]);
    assert_eq!(cell.data, expected);

    // The service comes to the rendezvous point.
    let come = RelayCell::plain(0, RelayCommand::Rendezvous2, vec![0; 32]);
    let answer = payload_of(&send_relay_cell(&mut rp, &come).unwrap());
    let event = Event::Exchanged { sent: true, payload: Some(answer) };
    let step = session.advance(&directory, event, choices(vec![]));
    assert_eq!(step.write, reply(0));
    assert!(matches!(step.next, Next::Flow));
}

#[test]
fn a_rendezvous_can_fail_at_every_step() {
    let (directory, _, address) = service();
    let established = |command| {
        let cell = RelayCell::plain(0, command, vec![]);
        payload_of(&send_relay_cell(&mut Link::new(55, [1; 32]), &cell).unwrap())
    };
    let good = established(RelayCommand::RendezvousEstablished);
    let bad = established(RelayCommand::End);

    let (mut session, _) = asked(&directory, address.as_bytes(), vec![addr(1)]);
    assert!(closes_with(&session.advance(&directory, Event::Built(None), choices(vec![])), &reply(1)));

    for (sent, payload) in [(false, None), (true, None), (true, Some(bad))] {
        let (mut session, _) = asked(&directory, address.as_bytes(), vec![addr(1)]);
        session.advance(&directory, Event::Built(Some(Link::new(1, [1; 32]))), choices(vec![]));
        let event = Event::Exchanged { sent, payload };
        let step = session.advance(&directory, event, choices(vec![addr(100)]));
        assert!(closes_with(&step, &reply(1)));
    }

    let waiting = |rp: SocketAddr| {
        let (mut session, _) = asked(&directory, address.as_bytes(), vec![rp]);
        session.advance(&directory, Event::Built(Some(Link::new(1, [1; 32]))), choices(vec![]));
        let event = Event::Exchanged { sent: true, payload: Some(good.clone()) };
        session.advance(&directory, event, choices(vec![addr(100)]));
        session
    };
    let step = waiting(addr(1)).advance(&directory, Event::Built(None), choices(vec![]));
    assert!(closes_with(&step, &reply(1)));
    let v6 = SocketAddr::V6 {
        ip6: Ipv6Addr { a: 1, b: 0, c: 0, d: 0, e: 0, f: 0, g: 0, h: 1 },
        port: 1,
        flowinfo: 0,
        scope_id: 0,
    };
    let built = || Event::Built(Some(Link::new(1, [1; 32])));
    let step = waiting(v6).advance(&directory, built(), choices(vec![]));
    assert!(closes_with(&step, &reply(1)));
    for (sent, code) in [(false, 1), (true, 4)] {
        let mut session = waiting(addr(1));
        session.advance(&directory, built(), choices(vec![]));
        let event = Event::Exchanged { sent, payload: None };
        assert!(closes_with(&session.advance(&directory, event, choices(vec![])), &reply(code)));
    }
}

#[test]
fn relays_are_picked_at_random() {
    let mut directory = Directory::new();
    for seed in 1..8u8 {
        let key = SigningKey::from_bytes([seed; 32]);
        directory.add_relay(RelayDescriptor::new(key.verifying_key(), addr(seed), vec![], 1, &key));
    }
    let mut seen = Vec::new();
    let mut ids = Vec::new();
    for _ in 0..200 {
        let mut session = Session::new();
        session.step(&directory, bytes(&[5, 0]));
        session.step(&directory, bytes(&[]));
        session.step(&directory, bytes(&[5, 1, 0, 1]));
        match session.step(&directory, bytes(&[1, 2, 3, 4, 0, 80])).next {
            Next::Build { path, circ_id, .. } => {
                assert_eq!(path.len(), 3);
                assert!(path[0] != path[1] && path[1] != path[2] && path[0] != path[2]);
                for hop in path {
                    if !seen.contains(&hop) {
                        seen.push(hop);
                    }
                }
                if !ids.contains(&circ_id) {
                    ids.push(circ_id);
                }
            }
            _ => panic!(),
        }
    }
    assert_eq!(seen.len(), 7);
    assert!(ids.len() > 190);
}

#[test]
fn cookies_are_random() {
    let a = root::random::new_cookie();
    let b = root::random::new_cookie();
    assert_ne!(a, b);
}
