//! The SOCKS5 proxy of a client: every decision from the greeting to the flow of data.
//!
//! A session takes what the caller read, built or received, and says what to write to the local
//! application and what to do next.

use crate::addr;
use crate::addr::{Ipv4Addr, SocketAddr};
use crate::bytes;
use crate::circuit;
use crate::descriptor;
use crate::directory;
use crate::directory::{Directory, DirectoryView};
use crate::encoding;
use crate::identity;
use crate::identity::VerifyingKey;
use crate::link;
use crate::link::{Link, LinkView};
use crate::random;
use crate::text;
use crate::wire::{CircuitId, RelayCell, RelayCellView, RelayCommand};
use vstd::prelude::*;

verus! {

pub const SOCKS5_VERSION: u8 = 0x05;

pub const SOCKS5_AUTH_NONE: u8 = 0x00;

pub const SOCKS5_CMD_CONNECT: u8 = 0x01;

pub const SOCKS5_ADDR_IPV4: u8 = 0x01;

pub const SOCKS5_ADDR_DOMAIN: u8 = 0x03;

/// The reply codes that the proxy gives.
pub const REPLY_SUCCEEDED: u8 = 0x00;

pub const REPLY_GENERAL_FAILURE: u8 = 0x01;

pub const REPLY_HOST_UNREACHABLE: u8 = 0x04;

pub const REPLY_CONNECTION_REFUSED: u8 = 0x05;

pub const REPLY_ADDRESS_UNSUPPORTED: u8 = 0x08;

/// The length of what a session begins with: the version, and the number of methods.
pub const GREETING_LEN: usize = 2;

/// How many relays a circuit goes over, if so many are known.
pub const CIRCUIT_HOPS: usize = 3;

/// How long the client waits for the service to come to the rendezvous.
pub const RENDEZVOUS_SECONDS: u64 = 30;

/// A reply with a code, and an address of zeros.
pub open spec fn reply_bytes(code: u8) -> Seq<u8> {
    seq![SOCKS5_VERSION, code, 0u8, SOCKS5_ADDR_IPV4, 0u8, 0u8, 0u8, 0u8, 0u8, 0u8]
}

pub fn make_reply(code: u8) -> (r: Vec<u8>)
    ensures
        r@ == reply_bytes(code),
{
    let mut r: Vec<u8> = Vec::new();
    r.push(SOCKS5_VERSION);
    r.push(code);
    r.push(0);
    r.push(SOCKS5_ADDR_IPV4);
    r.push(0);
    r.push(0);
    r.push(0);
    r.push(0);
    r.push(0);
    r.push(0);
    assert(r@ =~= reply_bytes(code));
    r
}

/// The circuits of a session: the one that data flows on, and the one to an introduction point.
#[derive(Debug, Clone, Copy, PartialEq, Eq, Structural)]
pub enum Leg {
    Main,
    Intro,
}

/// What the caller does next, once it has written what the step says to the local application.
#[derive(Debug)]
pub enum Next {
    /// Read so many bytes from the application.
    Read(usize),
    /// Build a circuit over these hops.
    Build { leg: Leg, circ_id: CircuitId, path: Vec<SocketAddr> },
    /// Send a packet on one circuit and receive a payload on the main one, within a time if there
    /// is one.
    Exchange { leg: Leg, packet: Vec<u8>, seconds: Option<u64> },
    /// Let data flow both ways.
    Flow,
    /// Close the connection.
    Close,
}

/// A `Next` as a mathematical value.
pub ghost enum NextView {
    Read(nat),
    Build { leg: Leg, circ_id: CircuitId, path: Seq<SocketAddr> },
    Exchange { leg: Leg, packet: Seq<u8>, seconds: Option<u64> },
    Flow,
    Close,
}

impl View for Next {
    type V = NextView;

    open spec fn view(&self) -> NextView {
        match self {
            Next::Read(n) => NextView::Read(*n as nat),
            Next::Build { leg, circ_id, path } => NextView::Build {
                leg: *leg,
                circ_id: *circ_id,
                path: path@,
            },
            Next::Exchange { leg, packet, seconds } => NextView::Exchange {
                leg: *leg,
                packet: packet@,
                seconds: *seconds,
            },
            Next::Flow => NextView::Flow,
            Next::Close => NextView::Close,
        }
    }
}

/// What comes of an event: what to write to the application, and what to do next.
#[derive(Debug)]
pub struct SocksStep {
    pub write: Vec<u8>,
    pub next: Next,
}

/// A `SocksStep` as a mathematical value.
pub ghost struct SocksStepView {
    pub write: Seq<u8>,
    pub next: NextView,
}

impl View for SocksStep {
    type V = SocksStepView;

    open spec fn view(&self) -> SocksStepView {
        SocksStepView { write: self.write@, next: self.next@ }
    }
}

/// What happened.
#[derive(Debug)]
pub enum Event {
    /// The bytes that were read, zero where none came, and whether all came.
    Bytes { complete: bool, data: Vec<u8> },
    /// A circuit was built, or could not be.
    Built(Option<Link>),
    /// Whether the packet could be sent, and the payload that was received, if one was in time.
    Exchanged { sent: bool, payload: Option<Vec<u8>> },
}

/// An `Event` as a mathematical value.
pub ghost enum EventView {
    Bytes { complete: bool, data: Seq<u8> },
    Built(Option<LinkView>),
    Exchanged { sent: bool, payload: Option<Seq<u8>> },
}

impl View for Event {
    type V = EventView;

    open spec fn view(&self) -> EventView {
        match self {
            Event::Bytes { complete, data } => EventView::Bytes { complete: *complete, data: data@ },
            Event::Built(None) => EventView::Built(None),
            Event::Built(Some(link)) => EventView::Built(Some(link@)),
            Event::Exchanged { sent, payload: None } => EventView::Exchanged {
                sent: *sent,
                payload: None,
            },
            Event::Exchanged { sent, payload: Some(p) } => EventView::Exchanged {
                sent: *sent,
                payload: Some(p@),
            },
        }
    }
}

/// How far a session has come.
pub enum State {
    /// Waits for the version and the number of methods.
    Greeting,
    /// Waits for the methods.
    Methods,
    /// Waits for the request.
    Request,
    /// Waits for an IPv4 address and a port.
    Ipv4,
    /// Waits for the length of a name.
    DomainLength,
    /// Waits for a name and a port.
    Domain,
    /// Builds the circuit to an exit.
    Building { circ_id: CircuitId, target: Vec<char> },
    /// Waits for the exit to connect.
    Connecting { link: Link },
    /// Builds the circuit to the rendezvous point.
    RpBuilding {
        circ_id: CircuitId,
        key: VerifyingKey,
        introduction_points: Vec<SocketAddr>,
        rp: SocketAddr,
    },
    /// Waits for the rendezvous point to register the cookie.
    RpEstablishing {
        link: Link,
        key: VerifyingKey,
        introduction_points: Vec<SocketAddr>,
        rp: SocketAddr,
        cookie: [u8; 20],
    },
    /// Builds the circuit to an introduction point.
    IntroBuilding {
        link: Link,
        key: VerifyingKey,
        rp: SocketAddr,
        cookie: [u8; 20],
        intro_circ_id: CircuitId,
    },
    /// Waits for the service at the rendezvous point.
    Waiting { link: Link },
    /// Data flows.
    Flowing { link: Link },
    /// The session is over.
    Closed,
}

/// A `State` as a mathematical value.
pub ghost enum StateView {
    Greeting,
    Methods,
    Request,
    Ipv4,
    DomainLength,
    Domain,
    Building { circ_id: CircuitId, target: Seq<char> },
    Connecting { link: LinkView },
    RpBuilding {
        circ_id: CircuitId,
        key: Seq<u8>,
        introduction_points: Seq<SocketAddr>,
        rp: SocketAddr,
    },
    RpEstablishing {
        link: LinkView,
        key: Seq<u8>,
        introduction_points: Seq<SocketAddr>,
        rp: SocketAddr,
        cookie: Seq<u8>,
    },
    IntroBuilding {
        link: LinkView,
        key: Seq<u8>,
        rp: SocketAddr,
        cookie: Seq<u8>,
        intro_circ_id: CircuitId,
    },
    Waiting { link: LinkView },
    Flowing { link: LinkView },
    Closed,
}

impl View for State {
    type V = StateView;

    open spec fn view(&self) -> StateView {
        match self {
            State::Greeting => StateView::Greeting,
            State::Methods => StateView::Methods,
            State::Request => StateView::Request,
            State::Ipv4 => StateView::Ipv4,
            State::DomainLength => StateView::DomainLength,
            State::Domain => StateView::Domain,
            State::Building { circ_id, target } => StateView::Building {
                circ_id: *circ_id,
                target: target@,
            },
            State::Connecting { link } => StateView::Connecting { link: link@ },
            State::RpBuilding { circ_id, key, introduction_points, rp } => StateView::RpBuilding {
                circ_id: *circ_id,
                key: key@,
                introduction_points: introduction_points@,
                rp: *rp,
            },
            State::RpEstablishing { link, key, introduction_points, rp, cookie } =>
                StateView::RpEstablishing {
                link: link@,
                key: key@,
                introduction_points: introduction_points@,
                rp: *rp,
                cookie: cookie@,
            },
            State::IntroBuilding { link, key, rp, cookie, intro_circ_id } =>
                StateView::IntroBuilding {
                link: link@,
                key: key@,
                rp: *rp,
                cookie: cookie@,
                intro_circ_id: *intro_circ_id,
            },
            State::Waiting { link } => StateView::Waiting { link: link@ },
            State::Flowing { link } => StateView::Flowing { link: link@ },
            State::Closed => StateView::Closed,
        }
    }
}

/// What a step draws by chance: an order of the relays or introduction points, a number for a
/// circuit and a cookie.
pub struct Choices {
    pub order: Vec<SocketAddr>,
    pub circ_id: CircuitId,
    pub cookie: [u8; 20],
}

/// `Choices` as a mathematical value.
pub ghost struct ChoicesView {
    pub order: Seq<SocketAddr>,
    pub circ_id: CircuitId,
    pub cookie: Seq<u8>,
}

impl View for Choices {
    type V = ChoicesView;

    open spec fn view(&self) -> ChoicesView {
        ChoicesView { order: self.order@, circ_id: self.circ_id, cookie: self.cookie@ }
    }
}

/// The end of a session, with what is written to the application.
pub open spec fn closed(write: Seq<u8>) -> (StateView, SocksStepView) {
    (StateView::Closed, SocksStepView { write, next: NextView::Close })
}

/// A refusal with a reply code.
pub open spec fn refused(code: u8) -> (StateView, SocksStepView) {
    closed(reply_bytes(code))
}

pub open spec fn reads(state: StateView, write: Seq<u8>, n: nat) -> (StateView, SocksStepView) {
    (state, SocksStepView { write, next: NextView::Read(n) })
}

/// A target with an IPv4 address: `a.b.c.d:port`.
pub open spec fn ipv4_target(data: Seq<u8>) -> Seq<char> {
    addr::ipv4_text(Ipv4Addr { a: data[0], b: data[1], c: data[2], d: data[3] }) + seq![':']
        + text::decimal(bytes::be16_at(data, 4) as nat)
}

/// A target with a name: `name:port`. The port is in the last two bytes.
pub open spec fn domain_target(data: Seq<u8>) -> Seq<char> {
    encoding::lossy_text(data.take(data.len() - 2)) + seq![':'] + text::decimal(
        bytes::be16_at(data, data.len() - 2) as nat,
    )
}

/// The host of a target: what stands before its last colon.
pub open spec fn target_host(target: Seq<char>) -> Seq<char> {
    let colon = text::find_back(target, ':', target.len() as int);
    if colon < 0 {
        target
    } else {
        target.take(colon)
    }
}

/// Whether a target is a hidden service: its host ends in `.root`.
pub open spec fn is_root_target(target: Seq<char>) -> bool {
    text::ends_with(target_host(target), ".root"@)
}

/// The circuit to an exit: over the first relays of the order.
pub open spec fn clearnet_step(target: Seq<char>, choices: ChoicesView) -> (
    StateView,
    SocksStepView,
) {
    let path = if choices.order.len() < CIRCUIT_HOPS {
        choices.order
    } else {
        choices.order.take(CIRCUIT_HOPS as int)
    };
    if path.len() == 0 {
        refused(REPLY_GENERAL_FAILURE)
    } else {
        (
            StateView::Building { circ_id: choices.circ_id, target },
            SocksStepView {
                write: Seq::empty(),
                next: NextView::Build { leg: Leg::Main, circ_id: choices.circ_id, path },
            },
        )
    }
}

/// The path to a rendezvous point: the first relay of the order, behind up to two others.
pub open spec fn rendezvous_path(order: Seq<SocketAddr>) -> Seq<SocketAddr> {
    order.subrange(
        1,
        if order.len() < CIRCUIT_HOPS {
            order.len() as int
        } else {
            CIRCUIT_HOPS as int
        },
    ).push(order[0])
}

/// The circuit to a rendezvous point, if the service is known.
pub open spec fn root_step(domain: Seq<char>, d: DirectoryView, choices: ChoicesView) -> (
    StateView,
    SocksStepView,
) {
    match identity::resolved(domain) {
        Err(_) => refused(REPLY_HOST_UNREACHABLE),
        Ok(key) => if !d.services.dom().contains(key) {
            refused(REPLY_HOST_UNREACHABLE)
        } else if d.services[key].introduction_points.len() == 0 {
            refused(REPLY_HOST_UNREACHABLE)
        } else if choices.order.len() == 0 {
            refused(REPLY_GENERAL_FAILURE)
        } else {
            (
                StateView::RpBuilding {
                    circ_id: choices.circ_id,
                    key,
                    introduction_points: d.services[key].introduction_points,
                    rp: choices.order[0],
                },
                SocksStepView {
                    write: Seq::empty(),
                    next: NextView::Build {
                        leg: Leg::Main,
                        circ_id: choices.circ_id,
                        path: rendezvous_path(choices.order),
                    },
                },
            )
        },
    }
}

/// What comes of a target.
pub open spec fn target_step(target: Seq<char>, d: DirectoryView, choices: ChoicesView) -> (
    StateView,
    SocksStepView,
) {
    if is_root_target(target) {
        root_step(target_host(target), d, choices)
    } else {
        clearnet_step(target, choices)
    }
}

/// Sends a relay cell on a link and waits for an answer on the main one.
pub open spec fn exchange(
    leg: Leg,
    link: LinkView,
    cell: RelayCellView,
    seconds: Option<u64>,
) -> Option<(LinkView, SocksStepView)> {
    if link.can_send(cell) {
        Some(
            (
                link.sent(cell),
                SocksStepView {
                    write: Seq::empty(),
                    next: NextView::Exchange { leg, packet: link.packet(cell), seconds },
                },
            ),
        )
    } else {
        None
    }
}

/// The command of the relay cell in a payload.
pub open spec fn received_command(link: LinkView, payload: Option<Seq<u8>>) -> Option<RelayCommand> {
    match payload {
        None => None,
        Some(p) => match link::received(link.backward, p) {
            Ok(rc) => Some(rc.command),
            Err(_) => None,
        },
    }
}

/// A link after a payload was received on it.
pub open spec fn link_after(link: LinkView, payload: Option<Seq<u8>>) -> LinkView {
    match payload {
        None => link,
        Some(p) => link.after_receive(p),
    }
}

pub open spec fn flowing(link: LinkView) -> (StateView, SocksStepView) {
    (
        StateView::Flowing { link },
        SocksStepView { write: reply_bytes(REPLY_SUCCEEDED), next: NextView::Flow },
    )
}

/// What an `Introduce1` cell carries: the service's key, the rendezvous point and the cookie.
pub open spec fn introduce_data(
    key: Seq<u8>,
    ip: Ipv4Addr,
    port: u16,
    cookie: Seq<u8>,
) -> Seq<u8> {
    key + ip.octets() + bytes::be16(port) + cookie
}

/// What comes of bytes that were read from the application.
pub open spec fn bytes_step(
    s: StateView,
    d: DirectoryView,
    complete: bool,
    data: Seq<u8>,
    choices: ChoicesView,
) -> (StateView, SocksStepView) {
    match s {
        StateView::Greeting => if complete && data.len() == GREETING_LEN && data[0] == SOCKS5_VERSION {
            reads(StateView::Methods, Seq::empty(), data[1] as nat)
        } else {
            closed(Seq::empty())
        },
        StateView::Methods => reads(
            StateView::Request,
            seq![SOCKS5_VERSION, SOCKS5_AUTH_NONE],
            4,
        ),
        StateView::Request => if complete && data.len() == 4 && data[1] == SOCKS5_CMD_CONNECT {
            if data[3] == SOCKS5_ADDR_IPV4 {
                reads(StateView::Ipv4, Seq::empty(), 6)
            } else if data[3] == SOCKS5_ADDR_DOMAIN {
                reads(StateView::DomainLength, Seq::empty(), 1)
            } else {
                refused(REPLY_ADDRESS_UNSUPPORTED)
            }
        } else {
            closed(Seq::empty())
        },
        StateView::Ipv4 => if data.len() == 6 {
            target_step(ipv4_target(data), d, choices)
        } else {
            closed(Seq::empty())
        },
        StateView::DomainLength => if data.len() == 1 {
            reads(StateView::Domain, Seq::empty(), data[0] as nat + 2)
        } else {
            closed(Seq::empty())
        },
        StateView::Domain => if 2 <= data.len() <= 257 {
            target_step(domain_target(data), d, choices)
        } else {
            closed(Seq::empty())
        },
        _ => closed(Seq::empty()),
    }
}

/// What comes of a circuit that was built, or was not.
pub open spec fn built_step(
    s: StateView,
    built: Option<LinkView>,
    choices: ChoicesView,
) -> (StateView, SocksStepView) {
    match s {
        StateView::Building { circ_id, target } => match built {
            None => refused(REPLY_GENERAL_FAILURE),
            Some(built) => match exchange(
                Leg::Main,
                LinkView { circ_id, ..built },
                circuit::plain_relay_cell(
                    link::DATA_STREAM,
                    RelayCommand::Begin,
                    vstd::utf8::encode_utf8(target),
                ),
                None,
            ) {
                None => closed(Seq::empty()),
                Some((link, step)) => (StateView::Connecting { link }, step),
            },
        },
        StateView::RpBuilding { circ_id, key, introduction_points, rp } => match built {
            None => refused(REPLY_GENERAL_FAILURE),
            Some(built) => match exchange(
                Leg::Main,
                LinkView { circ_id, ..built },
                circuit::plain_relay_cell(0, RelayCommand::EstablishRendezvous, choices.cookie),
                None,
            ) {
                None => closed(Seq::empty()),
                Some((link, step)) => (
                    StateView::RpEstablishing {
                        link,
                        key,
                        introduction_points,
                        rp,
                        cookie: choices.cookie,
                    },
                    step,
                ),
            },
        },
        StateView::IntroBuilding { link, key, rp, cookie, intro_circ_id } => match built {
            None => refused(REPLY_GENERAL_FAILURE),
            Some(built) => match rp {
                SocketAddr::V6 { .. } => refused(REPLY_GENERAL_FAILURE),
                SocketAddr::V4 { ip, port } => match exchange(
                    Leg::Intro,
                    LinkView { circ_id: intro_circ_id, ..built },
                    circuit::plain_relay_cell(
                        0,
                        RelayCommand::Introduce1,
                        introduce_data(key, ip, port, cookie),
                    ),
                    Some(RENDEZVOUS_SECONDS),
                ) {
                    None => closed(Seq::empty()),
                    Some((_, step)) => (StateView::Waiting { link }, step),
                },
            },
        },
        _ => closed(Seq::empty()),
    }
}

/// What comes of a packet that was sent, and of the answer.
pub open spec fn exchanged_step(
    s: StateView,
    sent: bool,
    payload: Option<Seq<u8>>,
    choices: ChoicesView,
) -> (StateView, SocksStepView) {
    match s {
        StateView::Connecting { link } => if !sent {
            refused(REPLY_GENERAL_FAILURE)
        } else if received_command(link, payload) == Some(RelayCommand::Connected) {
            flowing(link_after(link, payload))
        } else {
            refused(REPLY_CONNECTION_REFUSED)
        },
        StateView::RpEstablishing { link, key, introduction_points, rp, cookie } => if sent
            && received_command(link, payload) == Some(RelayCommand::RendezvousEstablished)
            && choices.order.len() > 0 {
            (
                StateView::IntroBuilding {
                    link: link_after(link, payload),
                    key,
                    rp,
                    cookie,
                    intro_circ_id: choices.circ_id,
                },
                SocksStepView {
                    write: Seq::empty(),
                    next: NextView::Build {
                        leg: Leg::Intro,
                        circ_id: choices.circ_id,
                        path: seq![choices.order[0]],
                    },
                },
            )
        } else {
            refused(REPLY_GENERAL_FAILURE)
        },
        StateView::Waiting { link } => if !sent {
            refused(REPLY_GENERAL_FAILURE)
        } else if received_command(link, payload) == Some(RelayCommand::Rendezvous2) {
            flowing(link_after(link, payload))
        } else {
            refused(REPLY_HOST_UNREACHABLE)
        },
        _ => closed(Seq::empty()),
    }
}

/// What comes of an event, for given choices.
pub open spec fn session_step(
    s: StateView,
    d: DirectoryView,
    event: EventView,
    choices: ChoicesView,
) -> (StateView, SocksStepView) {
    match event {
        EventView::Bytes { complete, data } => bytes_step(s, d, complete, data, choices),
        EventView::Built(built) => built_step(s, built, choices),
        EventView::Exchanged { sent, payload } => exchanged_step(s, sent, payload, choices),
    }
}

fn nothing() -> (r: Vec<u8>)
    ensures
        r@ == Seq::<u8>::empty(),
{
    Vec::new()
}

fn close() -> (r: (State, SocksStep))
    ensures
        (r.0@, r.1@) == closed(Seq::empty()),
{
    (State::Closed, SocksStep { write: nothing(), next: Next::Close })
}

fn refuse(code: u8) -> (r: (State, SocksStep))
    ensures
        (r.0@, r.1@) == refused(code),
{
    (State::Closed, SocksStep { write: make_reply(code), next: Next::Close })
}

fn read_next(state: State, n: usize) -> (r: (State, SocksStep))
    ensures
        (r.0@, r.1@) == reads(state@, Seq::empty(), n as nat),
{
    (state, SocksStep { write: nothing(), next: Next::Read(n) })
}

/// The target in an IPv4 address and a port.
pub fn make_ipv4_target(data: &[u8]) -> (r: Vec<char>)
    requires
        data@.len() == 6,
    ensures
        r@ == ipv4_target(data@),
{
    let mut out: Vec<char> = Vec::new();
    addr::append_ipv4(&mut out, Ipv4Addr { a: data[0], b: data[1], c: data[2], d: data[3] });
    out.push(':');
    text::append_decimal(&mut out, bytes::read_be16(data, 4) as u64);
    assert(out@ =~= ipv4_target(data@));
    out
}

/// The target in a name and a port.
pub fn make_domain_target(data: &[u8]) -> (r: Vec<char>)
    requires
        2 <= data@.len() <= 257,
    ensures
        r@ == domain_target(data@),
{
    let n: usize = data.len() - 2;
    let raw = vstd::slice::slice_subrange(data, 0, n);
    assert(raw@ =~= data@.take(data@.len() - 2));
    let name = encoding::text_of(raw);
    let mut out = text::chars_of(name.as_str());
    out.push(':');
    text::append_decimal(&mut out, bytes::read_be16(data, n) as u64);
    assert(out@ =~= domain_target(data@));
    out
}

fn start_clearnet(target: Vec<char>, choices: Choices) -> (r: (State, SocksStep))
    ensures
        (r.0@, r.1@) == clearnet_step(target@, choices@),
{
    let mut path = choices.order;
    path.truncate(CIRCUIT_HOPS);
    proof {
        if choices.order@.len() < CIRCUIT_HOPS {
            assert(path@ =~= choices.order@);
        }
    }
    if path.len() == 0 {
        return refuse(REPLY_GENERAL_FAILURE);
    }
    (
        State::Building { circ_id: choices.circ_id, target },
        SocksStep {
            write: nothing(),
            next: Next::Build { leg: Leg::Main, circ_id: choices.circ_id, path },
        },
    )
}

/// The path to the rendezvous point that is the first of the order.
pub fn make_rendezvous_path(order: &[SocketAddr]) -> (r: Vec<SocketAddr>)
    requires
        order@.len() > 0,
    ensures
        r@ == rendezvous_path(order@),
{
    let n: usize = if order.len() < CIRCUIT_HOPS {
        order.len()
    } else {
        CIRCUIT_HOPS
    };
    let mut path = descriptor::copy_addrs(vstd::slice::slice_subrange(order, 1, n));
    path.push(order[0]);
    path
}

fn start_root(domain: &[char], directory: &Directory, choices: Choices) -> (r: (State, SocksStep))
    ensures
        (r.0@, r.1@) == root_step(domain@, directory@, choices@),
{
    let name = text::string_of(domain);
    let key = match identity::resolve_root_domain(name.as_str()) {
        Ok(key) => key,
        Err(_) => {
            return refuse(REPLY_HOST_UNREACHABLE);
        },
    };
    let service = match directory.get_hidden_service(&key) {
        Some(d) => d,
        None => {
            return refuse(REPLY_HOST_UNREACHABLE);
        },
    };
    if service.introduction_points.len() == 0 {
        return refuse(REPLY_HOST_UNREACHABLE);
    }
    if choices.order.len() == 0 {
        return refuse(REPLY_GENERAL_FAILURE);
    }
    let path = make_rendezvous_path(choices.order.as_slice());
    let rp = choices.order[0];
    (
        State::RpBuilding {
            circ_id: choices.circ_id,
            key,
            introduction_points: service.introduction_points,
            rp,
        },
        SocksStep {
            write: nothing(),
            next: Next::Build { leg: Leg::Main, circ_id: choices.circ_id, path },
        },
    )
}

fn on_target(target: Vec<char>, directory: &Directory, choices: Choices) -> (r: (State, SocksStep))
    ensures
        (r.0@, r.1@) == target_step(target@, directory@, choices@),
{
    let end: usize = match text::last_position(target.as_slice(), ':') {
        Some(colon) => colon,
        None => target.len(),
    };
    let host = text::copy_chars(target.as_slice(), 0, end);
    assert(host@ =~= target_host(target@));
    if identity::is_root_domain(host.as_slice()) {
        start_root(host.as_slice(), directory, choices)
    } else {
        start_clearnet(target, choices)
    }
}

fn start_exchange(leg: Leg, link: Link, cell: RelayCell, seconds: Option<u64>) -> (r: Option<
    (Link, SocksStep),
>)
    ensures
        match exchange(leg, link@, cell@, seconds) {
            None => r is None,
            Some((l, s)) => r matches Some((link, step)) && link@ == l && step@ == s,
        },
{
    let mut link = link;
    match link::send_relay_cell(&mut link, &cell) {
        None => None,
        Some(packet) => Some(
            (
                link,
                SocksStep { write: nothing(), next: Next::Exchange { leg, packet, seconds } },
            ),
        ),
    }
}

fn read_command(link: &mut Link, payload: Option<Vec<u8>>) -> (r: Option<RelayCommand>)
    ensures
        r == received_command(old(link)@, payload_view(payload)),
        final(link)@ == link_after(old(link)@, payload_view(payload)),
{
    match payload {
        None => None,
        Some(p) => {
            match link::recv_relay_cell(link, p.as_slice()) {
                Ok(rc) => Some(rc.command),
                Err(_) => None,
            }
        },
    }
}

pub open spec fn payload_view(payload: Option<Vec<u8>>) -> Option<Seq<u8>> {
    match payload {
        Some(p) => Some(p@),
        None => None,
    }
}

fn start_flow(link: Link) -> (r: (State, SocksStep))
    ensures
        (r.0@, r.1@) == flowing(link@),
{
    (State::Flowing { link }, SocksStep { write: make_reply(REPLY_SUCCEEDED), next: Next::Flow })
}

/// The data of an `Introduce1` cell.
pub fn make_introduce_data(
    key: &VerifyingKey,
    ip: Ipv4Addr,
    port: u16,
    cookie: &[u8; 20],
) -> (r: Vec<u8>)
    ensures
        r@ == introduce_data(key@, ip, port, cookie@),
{
    let raw = key.to_bytes();
    let mut out: Vec<u8> = Vec::new();
    bytes::append_bytes(&mut out, &raw);
    out.push(ip.a);
    out.push(ip.b);
    out.push(ip.c);
    out.push(ip.d);
    bytes::push_be16(&mut out, port);
    bytes::append_bytes(&mut out, cookie);
    assert(out@ =~= introduce_data(key@, ip, port, cookie@));
    out
}

fn on_bytes(
    state: State,
    directory: &Directory,
    complete: bool,
    data: Vec<u8>,
    choices: Choices,
) -> (r: (State, SocksStep))
    ensures
        (r.0@, r.1@) == bytes_step(state@, directory@, complete, data@, choices@),
{
    match state {
        State::Greeting => {
            if complete && data.len() == GREETING_LEN && data[0] == SOCKS5_VERSION {
                read_next(State::Methods, data[1] as usize)
            } else {
                close()
            }
        },
        State::Methods => {
            let mut write: Vec<u8> = Vec::new();
            write.push(SOCKS5_VERSION);
            write.push(SOCKS5_AUTH_NONE);
            assert(write@ =~= seq![SOCKS5_VERSION, SOCKS5_AUTH_NONE]);
            (State::Request, SocksStep { write, next: Next::Read(4) })
        },
        State::Request => {
            if complete && data.len() == 4 && data[1] == SOCKS5_CMD_CONNECT {
                if data[3] == SOCKS5_ADDR_IPV4 {
                    read_next(State::Ipv4, 6)
                } else if data[3] == SOCKS5_ADDR_DOMAIN {
                    read_next(State::DomainLength, 1)
                } else {
                    refuse(REPLY_ADDRESS_UNSUPPORTED)
                }
            } else {
                close()
            }
        },
        State::Ipv4 => {
            if data.len() == 6 {
                on_target(make_ipv4_target(data.as_slice()), directory, choices)
            } else {
                close()
            }
        },
        State::DomainLength => {
            if data.len() == 1 {
                read_next(State::Domain, data[0] as usize + 2)
            } else {
                close()
            }
        },
        State::Domain => {
            if 2 <= data.len() && data.len() <= 257 {
                on_target(make_domain_target(data.as_slice()), directory, choices)
            } else {
                close()
            }
        },
        _ => close(),
    }
}

fn on_built(
    state: State,
    built: Option<Link>,
    choices: Choices,
) -> (r: (State, SocksStep))
    ensures
        (r.0@, r.1@) == built_step(
            state@,
            match built {
                Some(link) => Some(link@),
                None => None,
            },
            choices@,
        ),
{
    match state {
        State::Building { circ_id, target } => match built {
            None => refuse(REPLY_GENERAL_FAILURE),
            Some(built) => {
                let name = text::string_of(target.as_slice());
                let data = vstd::slice::slice_to_vec(name.as_str().as_bytes());
                let cell = RelayCell::plain(link::DATA_STREAM, RelayCommand::Begin, data);
                let link = Link { circ_id, ..built };
                match start_exchange(Leg::Main, link, cell, None) {
                    None => close(),
                    Some((link, step)) => (State::Connecting { link }, step),
                }
            },
        },
        State::RpBuilding { circ_id, key, introduction_points, rp } => match built {
            None => refuse(REPLY_GENERAL_FAILURE),
            Some(built) => {
                let cookie = choices.cookie;
                let data = vstd::slice::slice_to_vec(&cookie);
                let cell = RelayCell::plain(0, RelayCommand::EstablishRendezvous, data);
                let link = Link { circ_id, ..built };
                match start_exchange(Leg::Main, link, cell, None) {
                    None => close(),
                    Some((link, step)) => (
                        State::RpEstablishing { link, key, introduction_points, rp, cookie },
                        step,
                    ),
                }
            },
        },
        State::IntroBuilding { link, key, rp, cookie, intro_circ_id } => match built {
            None => refuse(REPLY_GENERAL_FAILURE),
            Some(built) => match rp {
                SocketAddr::V6 { .. } => refuse(REPLY_GENERAL_FAILURE),
                SocketAddr::V4 { ip, port } => {
                    let data = make_introduce_data(&key, ip, port, &cookie);
                    let cell = RelayCell::plain(0, RelayCommand::Introduce1, data);
                    let intro = Link { circ_id: intro_circ_id, ..built };
                    match start_exchange(Leg::Intro, intro, cell, Some(RENDEZVOUS_SECONDS)) {
                        None => close(),
                        Some((_, step)) => (State::Waiting { link }, step),
                    }
                },
            },
        },
        _ => close(),
    }
}

fn on_exchanged(
    state: State,
    sent: bool,
    payload: Option<Vec<u8>>,
    choices: Choices,
) -> (r: (State, SocksStep))
    ensures
        (r.0@, r.1@) == exchanged_step(state@, sent, payload_view(payload), choices@),
{
    match state {
        State::Connecting { link } => {
            if !sent {
                return refuse(REPLY_GENERAL_FAILURE);
            }
            let mut link = link;
            match read_command(&mut link, payload) {
                Some(RelayCommand::Connected) => start_flow(link),
                _ => refuse(REPLY_CONNECTION_REFUSED),
            }
        },
        State::RpEstablishing { link, key, introduction_points, rp, cookie } => {
            let mut link = link;
            if !sent || choices.order.len() == 0 {
                return refuse(REPLY_GENERAL_FAILURE);
            }
            match read_command(&mut link, payload) {
                Some(RelayCommand::RendezvousEstablished) => {
                    let intro_circ_id: CircuitId = choices.circ_id;
                    let mut path: Vec<SocketAddr> = Vec::new();
                    path.push(choices.order[0]);
                    assert(path@ =~= seq![choices.order@[0]]);
                    (
                        State::IntroBuilding { link, key, rp, cookie, intro_circ_id },
                        SocksStep {
                            write: nothing(),
                            next: Next::Build { leg: Leg::Intro, circ_id: intro_circ_id, path },
                        },
                    )
                },
                _ => refuse(REPLY_GENERAL_FAILURE),
            }
        },
        State::Waiting { link } => {
            if !sent {
                return refuse(REPLY_GENERAL_FAILURE);
            }
            let mut link = link;
            match read_command(&mut link, payload) {
                Some(RelayCommand::Rendezvous2) => start_flow(link),
                _ => refuse(REPLY_HOST_UNREACHABLE),
            }
        },
        _ => close(),
    }
}

/// A connection of the local application.
pub struct Session {
    pub state: State,
}

impl Session {
    /// A new session, which waits for the greeting.
    pub fn new() -> (r: Session)
        ensures
            r.state@ == StateView::Greeting,
    {
        Session { state: State::Greeting }
    }

    /// Begins a session: the first thing to read is the greeting of two bytes.
    pub fn start() -> (r: (Session, SocksStep))
        ensures
            (r.0.state@, r.1@) == reads(StateView::Greeting, Seq::empty(), GREETING_LEN as nat),
    {
        (Session::new(), SocksStep { write: nothing(), next: Next::Read(GREETING_LEN) })
    }

    /// Takes an event, with given choices.
    pub fn advance(
        &mut self,
        directory: &Directory,
        event: Event,
        choices: Choices,
    ) -> (r: SocksStep)
        ensures
            (final(self).state@, r@) == session_step(
                old(self).state@,
                directory@,
                event@,
                choices@,
            ),
    {
        let mut state = State::Closed;
        std::mem::swap(&mut self.state, &mut state);
        let (after, step) = match event {
            Event::Bytes { complete, data } => on_bytes(state, directory, complete, data, choices),
            Event::Built(built) => on_built(state, built, choices),
            Event::Exchanged { sent, payload } => on_exchanged(state, sent, payload, choices),
        };
        self.state = after;
        step
    }
}

/// Whether a list is an order of what a session chooses from in a state: the addresses of all relays
/// where it picks relays, the introduction points where it picks one of them.
pub open spec fn is_order(s: StateView, d: DirectoryView, order: Seq<SocketAddr>) -> bool {
    match s {
        StateView::Ipv4 => directory::is_relay_order(d.relays, order),
        StateView::Domain => directory::is_relay_order(d.relays, order),
        StateView::RpEstablishing { introduction_points, .. } => order.to_multiset()
            == introduction_points.to_multiset(),
        _ => order.len() == 0,
    }
}

impl Session {
    fn candidates(&self, directory: &Directory) -> (r: Vec<SocketAddr>)
        ensures
            is_order(self.state@, directory@, r@),
    {
        match &self.state {
            State::Ipv4 => directory.relay_addresses(),
            State::Domain => directory.relay_addresses(),
            State::RpEstablishing { introduction_points, .. } => descriptor::copy_addrs(
                introduction_points.as_slice(),
            ),
            _ => Vec::new(),
        }
    }

    /// Takes an event. What is left to chance is drawn here.
    pub fn step(&mut self, directory: &Directory, event: Event) -> (r: SocksStep)
        ensures
            exists|choices: ChoicesView|
                is_order(old(self).state@, directory@, choices.order) && choices.cookie.len() == 20
                    && (final(self).state@, r@) == #[trigger] session_step(
                    old(self).state@,
                    directory@,
                    event@,
                    choices,
                ),
    {
        let mut order = self.candidates(directory);
        let ghost before = order@;
        random::shuffle(&mut order);
        proof {
            broadcast use vstd::seq_lib::group_to_multiset_ensures;

            assert(order@.len() == order@.to_multiset().len());
            assert(before.len() == before.to_multiset().len());
            assert(is_order(self.state@, directory@, order@));
        }
        let choices = Choices {
            order,
            circ_id: random::new_circuit_id(),
            cookie: random::new_cookie(),
        };
        self.advance(directory, event, choices)
    }
}

proof fn lemma_last_colon(s: Seq<char>, k: int, i: int)
    requires
        0 <= k < i <= s.len(),
        s[k] == ':',
        forall|j: int| k < j < i ==> s[j] != ':',
    ensures
        text::find_back(s, ':', i) == k,
{
    text::lemma_find_back(s, ':', k, i);
}

/// The host of a target is the name in front of its port, whatever the name holds.
proof fn lemma_target_host(name: Seq<char>, port: nat)
    ensures
        target_host(name + seq![':'] + text::decimal(port)) == name,
{
    let target = name + seq![':'] + text::decimal(port);
    text::lemma_decimal_value_of_decimal(port);
    let k = name.len() as int;
    assert(target[k] == ':');
    assert forall|j: int| k < j < target.len() implies target[j] != ':' by {
        assert(text::is_digit(text::decimal(port)[j - k - 1]));
    }
    lemma_last_colon(target, k, target.len() as int);
    assert(target.take(k) =~= name);
}

/// A name that ends in `.root` is never handed to an exit, whatever else it holds and whatever port
/// is asked for.
pub proof fn law_root_names_never_exit(data: Seq<u8>, d: DirectoryView, choices: ChoicesView)
    requires
        data.len() >= 2,
        text::ends_with(encoding::lossy_text(data.take(data.len() - 2)), ".root"@),
    ensures
        ({
            let target = domain_target(data);
            &&& target_step(target, d, choices) == root_step(
                encoding::lossy_text(data.take(data.len() - 2)),
                d,
                choices,
            )
            &&& !(target_step(target, d, choices).0 is Building)
            &&& target_step(target, d, choices).0 is RpBuilding || target_step(target, d, choices)
                == refused(REPLY_HOST_UNREACHABLE) || target_step(target, d, choices) == refused(
                REPLY_GENERAL_FAILURE,
            )
        }),
{
    lemma_target_host(
        encoding::lossy_text(data.take(data.len() - 2)),
        bytes::be16_at(data, data.len() - 2) as nat,
    );
}

/// Any other name is handed to an exit as it is, if a relay is known.
pub proof fn law_other_names_exit(data: Seq<u8>, d: DirectoryView, choices: ChoicesView)
    requires
        data.len() >= 2,
        !text::ends_with(encoding::lossy_text(data.take(data.len() - 2)), ".root"@),
    ensures
        target_step(domain_target(data), d, choices) == clearnet_step(domain_target(data), choices),
{
    lemma_target_host(
        encoding::lossy_text(data.take(data.len() - 2)),
        bytes::be16_at(data, data.len() - 2) as nat,
    );
}

/// The port that is asked for does not matter to a hidden service.
pub proof fn law_root_port_is_ignored(
    name: Seq<char>,
    a: u16,
    b: u16,
    d: DirectoryView,
    choices: ChoicesView,
)
    requires
        text::ends_with(name, ".root"@),
    ensures
        target_step(name + seq![':'] + text::decimal(a as nat), d, choices) == target_step(
            name + seq![':'] + text::decimal(b as nat),
            d,
            choices,
        ),
{
    lemma_target_host(name, a as nat);
    lemma_target_host(name, b as nat);
}

/// A service that the directory holds is found under its address, whatever port is asked for.
pub proof fn law_published_service_is_found(
    key: Seq<u8>,
    port: u16,
    d: DirectoryView,
    choices: ChoicesView,
)
    requires
        identity::valid_key(key),
        d.services.dom().contains(key),
        d.services[key].introduction_points.len() > 0,
        choices.order.len() > 0,
    ensures
        target_step(
            identity::root_address(key) + seq![':'] + text::decimal(port as nat),
            d,
            choices,
        ).0 == (StateView::RpBuilding {
            circ_id: choices.circ_id,
            key,
            introduction_points: d.services[key].introduction_points,
            rp: choices.order[0],
        }),
{
    identity::law_address_round_trip(key);
    identity::law_address_form(key);
    lemma_target_host(identity::root_address(key), port as nat);
}

/// An unknown service is answered as unreachable, whatever relays are known.
pub proof fn law_unknown_service_is_unreachable(
    target: Seq<char>,
    key: Seq<u8>,
    d: DirectoryView,
    choices: ChoicesView,
)
    requires
        is_root_target(target),
        identity::resolved(target_host(target)) == Ok::<_, identity::DomainError>(key),
        !d.services.dom().contains(key),
    ensures
        target_step(target, d, choices) == refused(REPLY_HOST_UNREACHABLE),
{
}

/// Data flows only after the far side has confirmed: an exit with `Connected`, a service with
/// `Rendezvous2`. The application is told of success then, and never otherwise.
pub proof fn law_success_needs_confirmation(
    s: StateView,
    d: DirectoryView,
    event: EventView,
    choices: ChoicesView,
)
    ensures
        ({
            let (after, step) = session_step(s, d, event, choices);
            &&& step.next is Flow <==> after is Flowing
            &&& step.write == reply_bytes(REPLY_SUCCEEDED) <==> after is Flowing
            &&& after matches StateView::Flowing { .. } ==> event matches EventView::Exchanged {
                sent,
                payload,
            } && sent && match s {
                StateView::Connecting { link } => received_command(link, payload) == Some(
                    RelayCommand::Connected,
                ),
                StateView::Waiting { link } => received_command(link, payload) == Some(
                    RelayCommand::Rendezvous2,
                ),
                _ => false,
            }
        }),
{
    assert(reply_bytes(REPLY_SUCCEEDED)[1] == 0);
    assert(reply_bytes(REPLY_GENERAL_FAILURE)[1] == 1);
    assert(reply_bytes(REPLY_HOST_UNREACHABLE)[1] == 4);
    assert(reply_bytes(REPLY_CONNECTION_REFUSED)[1] == 5);
    assert(reply_bytes(REPLY_ADDRESS_UNSUPPORTED)[1] == 8);
    assert(reply_bytes(REPLY_SUCCEEDED).len() == 10);
}

/// A circuit for browsing goes over the first three relays of the order, or over all where there are
/// fewer. The path to a rendezvous point is no longer, and ends at it.
pub proof fn law_paths(target: Seq<char>, choices: ChoicesView)
    requires
        choices.order.len() > 0,
    ensures
        clearnet_step(target, choices).1.next matches NextView::Build { path, .. } && path.len()
            == if choices.order.len() < 3 {
            choices.order.len()
        } else {
            3
        } && path == choices.order.take(path.len() as int),
        rendezvous_path(choices.order).len() <= CIRCUIT_HOPS,
        rendezvous_path(choices.order).last() == choices.order[0],
        choices.order.no_duplicates() ==> rendezvous_path(choices.order).no_duplicates(),
{
    assert(choices.order.take(choices.order.len() as int) =~= choices.order);
}

} // verus!
