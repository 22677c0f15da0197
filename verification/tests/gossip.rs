use root::gossip::{
    bootstrap_entries, get_bootstrap_nodes, gossip_targets, handle_reply, round_targets,
    start_round, update_packet,
};
use root::{
    Directory, GossipMessage, Ipv4Addr, Message, Packet, PeerInfo, PeerStore, RelayDescriptor,
    SigningKey, SocketAddr,
};

fn addr(last: u8) -> SocketAddr {
    SocketAddr::V4 { ip: Ipv4Addr::new(192, 0, 2, last), port: 8443 }
}

fn relay(seed: u8, time: u64) -> RelayDescriptor {
    let key = SigningKey::from_bytes([seed; 32]);
    RelayDescriptor::new(key.verifying_key(), addr(seed), vec![seed], time, &key)
}

fn times(directory: &Directory) -> Vec<(SocketAddr, u64)> {
    let mut all: Vec<_> = directory
        .get_all_relays()
        .iter()
        .map(|d| (d.external_address, d.last_updated))
        .collect();
    all.sort_by_key(|x| format!("{:?}", x));
    all
}

#[test]
fn seeds_are_split_at_commas() {
    assert_eq!(bootstrap_entries(None), vec!["127.0.0.1:8444", "127.0.0.1:8445"]);
    assert_eq!(bootstrap_entries(Some("")), vec![""]);
    assert_eq!(bootstrap_entries(Some("a:1")), vec!["a:1"]);
    assert_eq!(bootstrap_entries(Some("a:1,,b:2,")), vec!["a:1", "", "b:2", ""]);
}

#[test]
fn the_first_address_of_each_seed_counts() {
    let resolved = vec![vec![addr(1), addr(2)], vec![], vec![addr(3)]];
    assert_eq!(get_bootstrap_nodes(&resolved), vec![addr(1), addr(3)]);
    assert!(get_bootstrap_nodes(&[]).is_empty());
}

#[test]
fn a_node_does_not_gossip_with_itself() {
    let seeds = [addr(1), addr(2), addr(1), addr(3)];
    assert_eq!(
        round_targets(vec![addr(9)], &seeds, Some(addr(1))),
        vec![addr(9), addr(2), addr(3)]
    );
    assert_eq!(round_targets(vec![], &seeds, None), seeds.to_vec());
}

#[test]
fn up_to_three_peers_are_chosen() {
    let mut peers = PeerStore::new();
    for seed in 1..3 {
        peers.add_peer(PeerInfo::new(relay(seed, 1), 1));
    }
    let few = gossip_targets(&peers, &[addr(50)], None);
    assert_eq!(few.len(), 3);
    assert!(few.contains(&addr(1)) && few.contains(&addr(2)));
    assert_eq!(few[2], addr(50));
    for seed in 3..10 {
        peers.add_peer(PeerInfo::new(relay(seed, 1), 1));
    }
    let some = gossip_targets(&peers, &[], None);
    assert_eq!(some.len(), 3);
    assert!(some[0] != some[1] && some[1] != some[2] && some[0] != some[2]);
    // In many rounds every peer is chosen.
    let mut seen = Vec::new();
    for _ in 0..500 {
        for a in gossip_targets(&peers, &[], None) {
            if !seen.contains(&a) {
                seen.push(a);
            }
        }
    }
    assert_eq!(seen.len(), 9);
}

#[test]
fn a_round_sends_the_own_descriptor_too() {
    let mut directory = Directory::new();
    directory.add_relay(relay(1, 5));
    let packet = start_round(&mut directory, Some(&relay(2, 6)));
    let payload = Packet::decapsulate(&packet).unwrap().payload;
    match Message::decode(&payload) {
        Some(Message::Gossip(GossipMessage::Update(list))) => assert_eq!(list.len(), 2),
        _ => panic!(),
    }
    let packet = start_round(&mut directory, None);
    assert_eq!(packet.len(), update_packet(&directory).len());
    assert_eq!(directory.get_all_relays().len(), 2);
}

#[test]
fn an_exchange_brings_two_nodes_together() {
    let mut a = Directory::new();
    a.add_relays(vec![relay(1, 10), relay(2, 10)]);
    let mut b = Directory::new();
    b.add_relays(vec![relay(1, 20), relay(3, 10)]);

    let sent = Packet::decapsulate(&start_round(&mut a, None)).unwrap().payload;
    let mut circuits = root::CircuitManager::new();
    let step = root::relay::handle_packet(&mut circuits, &mut b, 4, &sent);
    assert_eq!(step.end, root::relay::Ending::Continue);
    let answer = match &step.actions[..] {
        [root::relay::Action::Send { conn: 4, packet }] => Packet::decapsulate(packet).unwrap().payload,
        _ => panic!(),
    };
    let mut peers = PeerStore::new();
    handle_reply(&mut a, &mut peers, &answer, Some(77));
    assert_eq!(times(&a), times(&b));
    assert_eq!(times(&a).len(), 3);
    // What was new to the first node has become a peer: the newer first relay and the third.
    let mut met: Vec<_> = peers.get_all_peers();
    met.sort_by_key(|p| p.descriptor.last_updated);
    assert_eq!(met.len(), 2);
    assert_eq!(met[0].descriptor.external_address, addr(3));
    assert_eq!(met[0].last_seen, 77);
    assert_eq!(met[1].descriptor.external_address, addr(1));
    // A second exchange changes nothing.
    handle_reply(&mut a, &mut peers, &answer, Some(99));
    assert!(peers.get_all_peers().iter().all(|p| p.last_seen == 77));
}

#[test]
fn other_replies_change_nothing() {
    let mut directory = Directory::new();
    let mut peers = PeerStore::new();
    handle_reply(&mut directory, &mut peers, b"nonsense", Some(1));
    let cell = Message::TorCell(root::Cell {
        circ_id: 1,
        command: root::CellCommand::Padding,
        payload: vec![],
    });
    handle_reply(&mut directory, &mut peers, &cell.encode(), Some(1));
    assert!(directory.get_all_relays().is_empty());
    // Without a clock a relay is learned, but is no peer.
    let update = Message::Gossip(GossipMessage::Update(vec![relay(1, 1)])).encode();
    handle_reply(&mut directory, &mut peers, &update, None);
    assert_eq!(directory.get_all_relays().len(), 1);
    assert!(peers.get_all_peers().is_empty());
}
