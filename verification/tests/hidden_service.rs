use root::crypto::KEYSTREAM_LEN;
use root::hidden_service::{
    choose_points, handle_introduce2, read_introduction, rendezvous_packet, take_points,
    HiddenService, Introduction,
};
use root::link::{recv_relay_cell, send_relay_cell, Link};
use root::socks::make_introduce_data;
use root::{
    resolve_root_domain, Directory, Ipv4Addr, Packet, RelayCell, RelayCommand, RelayDescriptor,
    SigningKey, SocketAddr,
};

fn addr(last: u8) -> SocketAddr {
    SocketAddr::V4 { ip: Ipv4Addr::new(192, 0, 2, last), port: 700 }
}

fn payload_of(packet: &[u8]) -> Vec<u8> {
    Packet::decapsulate(packet).unwrap().payload
}

fn sealed(link: &mut Link, command: RelayCommand, data: Vec<u8>) -> Vec<u8> {
    payload_of(&send_relay_cell(link, &RelayCell::plain(0, command, data)).unwrap())
}

#[test]
fn three_introduction_points_are_chosen() {
    let order: Vec<SocketAddr> = (1..6).map(addr).collect();
    assert_eq!(take_points(order.clone()), order[..3].to_vec());
    assert_eq!(take_points(order[..2].to_vec()), order[..2].to_vec());
    let mut directory = Directory::new();
    assert!(choose_points(&directory).is_empty());
    for seed in 1..7u8 {
        let key = SigningKey::from_bytes([seed; 32]);
        directory.add_relay(RelayDescriptor::new(key.verifying_key(), addr(seed), vec![], 1, &key));
    }
    let mut seen = Vec::new();
    for _ in 0..100 {
        let points = choose_points(&directory);
        assert_eq!(points.len(), 3);
        for p in points {
            if !seen.contains(&p) {
                seen.push(p);
            }
        }
    }
    assert_eq!(seen.len(), 6);
}

#[test]
fn relays_that_confirm_become_introduction_points() {
    let key = SigningKey::from_bytes([1; 32]);
    let mut service = HiddenService::new(key);
    let mut link = Link::new(9, [5; 32]);
    let packet = service.establish_intro(&mut link).unwrap();
    let cell = recv_relay_cell(&mut Link::new(9, [5; 32]), &payload_of(&packet)).unwrap();
    assert_eq!(cell.command, RelayCommand::EstablishIntro);
    assert_eq!(cell.data, key.verifying_key().to_bytes().to_vec());

    let mut relay = Link::new(9, [5; 32]);
    let no = sealed(&mut relay, RelayCommand::End, vec![]);
    assert!(!service.intro_answered(addr(1), &mut link, &no));
    assert!(!service.intro_answered(addr(1), &mut link, b"junk"));
    let yes = sealed(&mut relay, RelayCommand::IntroEstablished, vec![]);
    assert!(service.intro_answered(addr(2), &mut link, &yes));
    assert_eq!(service.introduction_points, vec![addr(2)]);
    link.forward.ciphers[0].used = KEYSTREAM_LEN;
    assert!(service.establish_intro(&mut link).is_none());
}

#[test]
fn a_published_service_is_found_under_its_address() {
    let key = SigningKey::from_bytes([1; 32]);
    let mut service = HiddenService::new(key);
    service.introduction_points.push(addr(4));
    let mut directory = Directory::new();
    assert!(service.descriptor().verify().is_ok());
    assert!(service.publish(&mut directory));
    let resolved = resolve_root_domain(&service.address()).unwrap();
    let found = directory.get_hidden_service(&resolved).unwrap();
    assert_eq!(found.introduction_points, vec![addr(4)]);
}

#[test]
fn introductions_name_the_rendezvous() {
    let key = SigningKey::from_bytes([1; 32]).verifying_key();
    let data = make_introduce_data(&key, Ipv4Addr::new(9, 8, 7, 6), 0x0506, &[0xcc; 20]);
    assert_eq!(data.len(), 58);
    assert_eq!(&data[32..38], &[9, 8, 7, 6, 5, 6]);
    let (to, cookie) = read_introduction(&data).unwrap();
    assert_eq!(to, SocketAddr::V4 { ip: Ipv4Addr::new(9, 8, 7, 6), port: 0x0506 });
    assert_eq!(cookie, [0xcc; 20]);
    assert!(read_introduction(&data[..57]).is_none());
    let mut longer = data.clone();
    longer.push(1);
    assert_eq!(read_introduction(&longer).unwrap().1, [0xcc; 20]);
}

#[test]
fn a_service_listens_for_introductions() {
    let key = SigningKey::from_bytes([1; 32]).verifying_key();
    let data = make_introduce_data(&key, Ipv4Addr::new(9, 8, 7, 6), 80, &[1; 20]);
    let mut relay = Link::new(9, [5; 32]);
    let mut link = Link::new(9, [5; 32]);
    let short = sealed(&mut relay, RelayCommand::Introduce2, vec![0; 57]);
    assert!(matches!(handle_introduce2(&mut link, &short), Introduction::Skip));
    let other = sealed(&mut relay, RelayCommand::Data, data.clone());
    assert!(matches!(handle_introduce2(&mut link, &other), Introduction::Skip));
    let good = sealed(&mut relay, RelayCommand::Introduce2, data);
    match handle_introduce2(&mut link, &good) {
        Introduction::Rendezvous { addr, cookie } => {
            assert_eq!(addr, SocketAddr::V4 { ip: Ipv4Addr::new(9, 8, 7, 6), port: 80 });
            assert_eq!(cookie, [1; 20]);
        }
        _ => panic!(),
    }
    assert!(matches!(handle_introduce2(&mut link, b"junk"), Introduction::Stop));
}

#[test]
fn a_service_comes_with_the_cookie() {
    let mut link = Link::new(3, [5; 32]);
    let packet = rendezvous_packet(&mut link, &[0xab; 20]).unwrap();
    let cell = recv_relay_cell(&mut Link::new(3, [5; 32]), &payload_of(&packet)).unwrap();
    assert_eq!(cell.command, RelayCommand::Rendezvous1);
    let mut expected = vec![0xab; 20];
    expected.extend_from_slice(&[0; 32]);
    assert_eq!(cell.data, expected);
}

#[test]
fn a_service_without_points_asks_again() {
    let mut service = HiddenService::new(SigningKey::from_bytes([1; 32]));
    let mut directory = Directory::new();
    assert!(service.needs_points());
    assert!(service.points_to_ask(&directory).is_empty());
    // A relay that becomes known later is asked in the next round.
    let key = SigningKey::from_bytes([9; 32]);
    directory.add_relay(RelayDescriptor::new(key.verifying_key(), addr(9), vec![], 1, &key));
    assert_eq!(service.points_to_ask(&directory), vec![addr(9)]);
    let mut relay = Link::new(1, [5; 32]);
    let mut link = Link::new(1, [5; 32]);
    let yes = sealed(&mut relay, RelayCommand::IntroEstablished, vec![]);
    assert!(service.intro_answered(addr(9), &mut link, &yes));
    assert!(!service.needs_points());
    assert!(service.points_to_ask(&directory).is_empty());
    assert_eq!(service.descriptor().introduction_points, vec![addr(9)]);
}
