//! A hidden service: its introduction points, its descriptor, and how it comes to a rendezvous.

use crate::addr::{Ipv4Addr, SocketAddr};
use crate::bytes;
use crate::circuit;
use crate::circuit::{ConnectionId, ManagerView};
use crate::crypto;
use crate::crypto::CipherView;
use crate::descriptor;
use crate::descriptor::HiddenServiceDescriptor;
use crate::directory;
use crate::directory::Directory;
use crate::identity;
use crate::identity::SigningKey;
use crate::link;
use crate::link::Link;
use crate::random;
use crate::relay;
use crate::socks;
use crate::wire::{CircuitId, RelayCell, RelayCommand};
use vstd::prelude::*;

verus! {

/// How many introduction points a service has, if so many relays are known.
pub const INTRODUCTION_POINTS: usize = 3;

/// After how long a service publishes its descriptor again.
pub const REPUBLISH_SECONDS: u64 = 600;

/// The length of what an introduction carries: a key, an address, a port and a cookie.
pub const INTRODUCTION_LEN: usize = 58;

/// A hidden service and the introduction points that have confirmed it.
pub struct HiddenService {
    pub signing_key: SigningKey,
    pub introduction_points: Vec<SocketAddr>,
}

/// The first introduction points of an order of relays.
pub open spec fn first_points(order: Seq<SocketAddr>) -> Seq<SocketAddr> {
    if order.len() < INTRODUCTION_POINTS {
        order
    } else {
        order.take(INTRODUCTION_POINTS as int)
    }
}

/// Takes the first introduction points of an order of relays.
pub fn take_points(order: Vec<SocketAddr>) -> (r: Vec<SocketAddr>)
    ensures
        r@ == first_points(order@),
{
    let mut points = order;
    points.truncate(INTRODUCTION_POINTS);
    assert(points@ =~= first_points(order@));
    points
}

/// Picks relays at random to be asked as introduction points.
pub fn choose_points(directory: &Directory) -> (r: Vec<SocketAddr>)
    ensures
        exists|order: Seq<SocketAddr>| #[trigger]
            directory::is_relay_order(directory@.relays, order) && r@ == first_points(order),
{
    let mut order = directory.relay_addresses();
    random::shuffle(&mut order);
    assert(directory::is_relay_order(directory@.relays, order@));
    take_points(order)
}

impl HiddenService {
    /// Whether the service has no introduction point yet.
    pub fn needs_points(&self) -> (r: bool)
        ensures
            r == (self.introduction_points@.len() == 0),
    {
        self.introduction_points.len() == 0
    }

    /// The relays to be asked in a round: as long as the service has no introduction point, it
    /// chooses again from the relays that the directory knows by then.
    pub fn points_to_ask(&self, directory: &Directory) -> (r: Vec<SocketAddr>)
        ensures
            self.introduction_points@.len() > 0 ==> r@.len() == 0,
            self.introduction_points@.len() == 0 ==> exists|order: Seq<SocketAddr>| #[trigger]
                directory::is_relay_order(directory@.relays, order) && r@ == first_points(order),
    {
        if self.needs_points() {
            choose_points(directory)
        } else {
            Vec::new()
        }
    }

    /// A service without introduction points.
    pub fn new(signing_key: SigningKey) -> (r: HiddenService)
        ensures
            r.signing_key@ == signing_key@,
            r.introduction_points@ == Seq::<SocketAddr>::empty(),
    {
        HiddenService { signing_key, introduction_points: Vec::new() }
    }

    /// The address under which the service is reached.
    pub fn address(&self) -> (r: String)
        ensures
            r@ == identity::root_address(crypto::ed25519_public(self.signing_key@)),
    {
        identity::address_of(&self.signing_key.verifying_key())
    }

    /// Asks a relay to be an introduction point.
    pub fn establish_intro(&self, link: &mut Link) -> (r: Option<Vec<u8>>)
        ensures
            ({
                let cell = circuit::plain_relay_cell(
                    0,
                    RelayCommand::EstablishIntro,
                    crypto::ed25519_public(self.signing_key@),
                );
                match r {
                    Some(packet) => old(link)@.can_send(cell) && packet@ == old(link)@.packet(cell)
                        && final(link)@ == old(link)@.sent(cell),
                    None => !old(link)@.can_send(cell) && final(link)@ == old(link)@,
                }
            }),
    {
        let raw = self.signing_key.verifying_key().to_bytes();
        let data = vstd::slice::slice_to_vec(&raw);
        let cell = RelayCell::plain(0, RelayCommand::EstablishIntro, data);
        link::send_relay_cell(link, &cell)
    }

    /// Takes the payload that answered. A relay that confirms becomes an introduction point.
    pub fn intro_answered(
        &mut self,
        addr: SocketAddr,
        link: &mut Link,
        payload: &[u8],
    ) -> (r: bool)
        ensures
            r == (link::received(old(link)@.backward, payload@) matches Ok(rc) && rc.command
                == RelayCommand::IntroEstablished),
            final(link)@ == old(link)@.after_receive(payload@),
            final(self).signing_key@ == old(self).signing_key@,
            final(self).introduction_points@ == if r {
                old(self).introduction_points@.push(addr)
            } else {
                old(self).introduction_points@
            },
    {
        match link::recv_relay_cell(link, payload) {
            Ok(rc) => {
                if rc.command == RelayCommand::IntroEstablished {
                    self.introduction_points.push(addr);
                    true
                } else {
                    false
                }
            },
            Err(_) => false,
        }
    }

    /// The signed descriptor of the service as it is now.
    pub fn descriptor(&self) -> (r: HiddenServiceDescriptor)
        ensures
            r@.identity_key == crypto::ed25519_public(self.signing_key@),
            r@.introduction_points == self.introduction_points@,
            descriptor::service_verifies(r@),
    {
        HiddenServiceDescriptor::new(
            self.signing_key.verifying_key(),
            descriptor::copy_addrs(self.introduction_points.as_slice()),
            &self.signing_key,
        )
    }

    /// Publishes the descriptor in a directory, which always takes it.
    pub fn publish(&self, directory: &mut Directory) -> (r: bool)
        ensures
            r,
            final(directory)@.relays == old(directory)@.relays,
            ({
                let key = crypto::ed25519_public(self.signing_key@);
                &&& final(directory)@.services.dom() == old(directory)@.services.dom().insert(key)
                &&& final(directory)@.services[key].identity_key == key
                &&& final(directory)@.services[key].introduction_points
                    == self.introduction_points@
                &&& descriptor::service_verifies(final(directory)@.services[key])
                &&& forall|k: Seq<u8>|
                    k != key && #[trigger] old(directory)@.services.dom().contains(k)
                        ==> final(directory)@.services[k] == old(directory)@.services[k]
            }),
    {
        directory.publish_hidden_service(self.descriptor())
    }
}

/// What an introduction asks for: the rendezvous point and the cookie, behind the service's key.
pub open spec fn introduction(data: Seq<u8>) -> Option<(SocketAddr, Seq<u8>)> {
    if data.len() < INTRODUCTION_LEN {
        None
    } else {
        Some((relay::addr_at(data, 32), data.subrange(38, 58)))
    }
}

/// Reads what an introduction asks for.
pub fn read_introduction(data: &[u8]) -> (r: Option<(SocketAddr, [u8; 20])>)
    ensures
        match introduction(data@) {
            None => r is None,
            Some((addr, cookie)) => r matches Some((a, c)) && a == addr && c@ == cookie,
        },
{
    if data.len() < INTRODUCTION_LEN {
        return None;
    }
    let addr = relay::read_addr_at(data, 32);
    let tail = vstd::slice::slice_subrange(data, 38, 58);
    let cookie = bytes::array_20(tail);
    assert(cookie@ =~= data@.subrange(38, 58));
    Some((addr, cookie))
}

/// What a service does with a payload on an introduction circuit.
pub enum Introduction {
    /// Come to this rendezvous.
    Rendezvous { addr: SocketAddr, cookie: [u8; 20] },
    /// Nothing; go on.
    Skip,
    /// The circuit cannot be read any more.
    Stop,
}

/// An `Introduction` as a mathematical value.
pub ghost enum IntroductionView {
    Rendezvous { addr: SocketAddr, cookie: Seq<u8> },
    Skip,
    Stop,
}

impl View for Introduction {
    type V = IntroductionView;

    open spec fn view(&self) -> IntroductionView {
        match self {
            Introduction::Rendezvous { addr, cookie } => IntroductionView::Rendezvous {
                addr: *addr,
                cookie: cookie@,
            },
            Introduction::Skip => IntroductionView::Skip,
            Introduction::Stop => IntroductionView::Stop,
        }
    }
}

/// What a payload on an introduction circuit comes to: an `Introduce2` cell asks for a rendezvous,
/// unless it is too short.
pub open spec fn introduced(backward: Seq<CipherView>, payload: Seq<u8>) -> IntroductionView {
    match link::received(backward, payload) {
        Err(_) => IntroductionView::Stop,
        Ok(rc) => if rc.command == RelayCommand::Introduce2 {
            match introduction(rc.data) {
                None => IntroductionView::Skip,
                Some((addr, cookie)) => IntroductionView::Rendezvous { addr, cookie },
            }
        } else {
            IntroductionView::Skip
        },
    }
}

/// Takes a payload on an introduction circuit.
pub fn handle_introduce2(link: &mut Link, payload: &[u8]) -> (r: Introduction)
    ensures
        r@ == introduced(old(link)@.backward, payload@),
        final(link)@ == old(link)@.after_receive(payload@),
{
    match link::recv_relay_cell(link, payload) {
        Err(_) => Introduction::Stop,
        Ok(rc) => {
            if rc.command == RelayCommand::Introduce2 {
                match read_introduction(rc.data.as_slice()) {
                    None => Introduction::Skip,
                    Some((addr, cookie)) => Introduction::Rendezvous { addr, cookie },
                }
            } else {
                Introduction::Skip
            }
        },
    }
}

/// What a `Rendezvous1` cell carries: the cookie, and zeros in place of a handshake.
pub open spec fn rendezvous_data(cookie: Seq<u8>) -> Seq<u8> {
    cookie + bytes::zeros(32)
}

/// Tells the rendezvous point that the service has come.
pub fn rendezvous_packet(link: &mut Link, cookie: &[u8; 20]) -> (r: Option<Vec<u8>>)
    ensures
        ({
            let cell = circuit::plain_relay_cell(
                0,
                RelayCommand::Rendezvous1,
                rendezvous_data(cookie@),
            );
            match r {
                Some(packet) => old(link)@.can_send(cell) && packet@ == old(link)@.packet(cell)
                    && final(link)@ == old(link)@.sent(cell),
                None => !old(link)@.can_send(cell) && final(link)@ == old(link)@,
            }
        }),
{
    let mut data: Vec<u8> = vstd::slice::slice_to_vec(cookie);
    let blank: [u8; 32] = [0u8; 32];
    assert(blank@ =~= bytes::zeros(32));
    bytes::append_bytes(&mut data, &blank);
    let cell = RelayCell::plain(0, RelayCommand::Rendezvous1, data);
    link::send_relay_cell(link, &cell)
}

/// A relay that comes to be known is asked: as long as no more relays are known than a service asks,
/// every one of them is among those that it asks.
pub proof fn law_known_relays_are_asked(
    relays: Map<Seq<u8>, descriptor::RelayView>,
    order: Seq<SocketAddr>,
    key: Seq<u8>,
)
    requires
        directory::is_relay_order(relays, order),
        order.len() <= INTRODUCTION_POINTS,
        relays.dom().contains(key),
    ensures
        first_points(order).contains(relays[key].external_address),
{
    broadcast use vstd::seq_lib::group_to_multiset_ensures;

    let list = choose|list: Seq<descriptor::RelayView>| #[trigger]
        directory::lists_relays(list, relays) && order.to_multiset() == directory::addresses(
            list,
        ).to_multiset();
    let addrs = directory::addresses(list);
    let a = relays[key].external_address;
    let i = choose|i: int| 0 <= i < list.len() && (#[trigger] list[i]).id == key;
    assert(addrs[i] == a);
    assert(addrs.contains(a));
    assert(addrs.to_multiset().count(a) > 0);
    assert(order.to_multiset().count(a) > 0);
    assert(order.contains(a));
    assert(first_points(order) =~= order);
}

/// The service reads from an introduction the very rendezvous point and cookie that the client wrote.
pub proof fn law_introduction_round_trip(key: Seq<u8>, ip: Ipv4Addr, port: u16, cookie: Seq<u8>)
    requires
        key.len() == 32,
        cookie.len() == 20,
    ensures
        socks::introduce_data(key, ip, port, cookie).len() == INTRODUCTION_LEN,
        socks::introduce_data(key, ip, port, cookie).take(32) == key,
        introduction(socks::introduce_data(key, ip, port, cookie)) == Some(
            (SocketAddr::V4 { ip, port }, cookie),
        ),
{
    let data = socks::introduce_data(key, ip, port, cookie);
    assert(data.take(32) =~= key);
    assert(data[32] == ip.a && data[33] == ip.b && data[34] == ip.c && data[35] == ip.d);
    assert(data[36] == bytes::be16(port)[0]);
    assert(data[37] == bytes::be16(port)[1]);
    assert(port as nat == (port as nat / 256) * 256 + port as nat % 256);
    assert(relay::addr_at(data, 32) == SocketAddr::V4 { ip, port });
    assert(data.subrange(38, 58) =~= cookie);
}

/// An introduction reaches the service unchanged: the relay that the service has asked sends it on,
/// on the service's own circuit, and the service reads from it what the client wrote.
pub proof fn law_introduction_reaches_the_service(
    m: ManagerView,
    service: CircuitId,
    conn: ConnectionId,
    key: Seq<u8>,
    ip: Ipv4Addr,
    port: u16,
    cookie: Seq<u8>,
)
    requires
        circuit::numbered(m),
        identity::valid_key(key),
        cookie.len() == 20,
        m.intro_points.dom().contains(key),
        m.intro_points[key] == service,
        m.circuits.dom().contains(service),
        m.circuits[service].prev_hop_stream == Some(conn),
        circuit::can_seal(
            m.circuits[service].backward_cipher,
            circuit::plain_relay_cell(
                0,
                RelayCommand::Introduce2,
                socks::introduce_data(key, ip, port, cookie),
            ),
        ),
    ensures
        ({
            let data = socks::introduce_data(key, ip, port, cookie);
            let cell = circuit::plain_relay_cell(0, RelayCommand::Introduce2, data);
            &&& relay::introduce1_step(m, data).1 == relay::one(
                relay::ActionView::Send {
                    conn,
                    packet: circuit::sealed_packet(
                        service,
                        m.circuits[service].backward_cipher,
                        cell,
                    ),
                },
            )
            &&& introduction(cell.data) == Some((SocketAddr::V4 { ip, port }, cookie))
        }),
{
    law_introduction_round_trip(key, ip, port, cookie);
    let data = socks::introduce_data(key, ip, port, cookie);
    let cell = circuit::plain_relay_cell(0, RelayCommand::Introduce2, data);
    assert(relay::introduce1_step(m, data).1.actions =~= relay::one(
        relay::ActionView::Send {
            conn,
            packet: circuit::sealed_packet(service, m.circuits[service].backward_cipher, cell),
        },
    ).actions);
}

/// A service that comes with a cookie is linked with the client that waits with it, and the client
/// is told on its own circuit.
pub proof fn law_rendezvous_completes(
    m: ManagerView,
    id: CircuitId,
    client_id: CircuitId,
    conn: ConnectionId,
    cookie: Seq<u8>,
)
    requires
        circuit::numbered(m),
        cookie.len() == 20,
        m.circuits.dom().contains(id),
        m.circuits.dom().contains(client_id),
        client_id != id,
        m.rendezvous_points.dom().contains(cookie),
        m.rendezvous_points[cookie] == client_id,
        m.circuits[client_id].prev_hop_stream == Some(conn),
        circuit::can_seal(
            m.circuits[client_id].backward_cipher,
            circuit::plain_relay_cell(0, RelayCommand::Rendezvous2, bytes::zeros(32)),
        ),
    ensures
        ({
            let (after, step) = relay::rendezvous1_step(m, id, rendezvous_data(cookie));
            &&& after.circuits[id].linked_circuit_id == Some(client_id)
            &&& after.circuits[client_id].linked_circuit_id == Some(id)
            &&& step == relay::one(
                relay::ActionView::Send {
                    conn,
                    packet: circuit::sealed_packet(
                        client_id,
                        m.circuits[client_id].backward_cipher,
                        circuit::plain_relay_cell(0, RelayCommand::Rendezvous2, bytes::zeros(32)),
                    ),
                },
            )
        }),
{
    let data = rendezvous_data(cookie);
    assert(data.take(20) =~= cookie);
    assert(data.skip(20) =~= bytes::zeros(32));
    assert(relay::rendezvous1_step(m, id, data).1.actions =~= relay::one(
        relay::ActionView::Send {
            conn,
            packet: circuit::sealed_packet(
                client_id,
                m.circuits[client_id].backward_cipher,
                circuit::plain_relay_cell(0, RelayCommand::Rendezvous2, bytes::zeros(32)),
            ),
        },
    ).actions);
}

} // verus!
