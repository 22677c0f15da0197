//! What a relay does with the packets that arrive: every decision between reading a packet and
//! writing the next one.
//!
//! A step takes a packet and returns actions, in order. Where an action has an answer (a dialed
//! hop, a resolved name, a dialed destination), the answer is handed to the function that goes on
//! from there.

use crate::addr::{Ipv4Addr, SocketAddr};
use crate::bytes;
use crate::circuit;
use crate::circuit::{Circuit, CircuitManager, CircuitView, ConnectionId, ManagerView, Stream};
use crate::crypto;
use crate::crypto::CircuitCipher;
use crate::directory;
use crate::directory::Directory;
use crate::encoding;
use crate::exit_policy;
use crate::exit_policy::{ExitPolicy, PolicyAction};
use crate::gossip;
use crate::identity;
use crate::identity::VerifyingKey;
use crate::wire;
use crate::wire::{
    Cell, CellCommand, CellView, CircuitId, GossipMessage, Message, MessageView, RelayCell,
    RelayCellView, RelayCommand,
};
use ring::agreement::EphemeralPrivateKey;
use vstd::prelude::*;
use vstd::std_specs::iter::IteratorSpec;

verus! {

/// What the caller is to do.
#[derive(Debug)]
pub enum Action {
    /// Write a packet to a connection of the network.
    Send { conn: ConnectionId, packet: Vec<u8> },
    /// Write data to an exit connection.
    Write { conn: ConnectionId, data: Vec<u8> },
    /// Close a connection: of an exit stream, or of a next hop.
    Close { conn: ConnectionId },
    /// Dial the next hop of a circuit, send it the packet, and hand its answer to `extend_answered`.
    Extend { circ_id: CircuitId, addr: SocketAddr, packet: Vec<u8> },
    /// Resolve a destination and hand the addresses to `begin_resolved`.
    Begin { circ_id: CircuitId, stream_id: u16, target: String },
}

/// An `Action` as a mathematical value.
pub ghost enum ActionView {
    Send { conn: ConnectionId, packet: Seq<u8> },
    Write { conn: ConnectionId, data: Seq<u8> },
    Close { conn: ConnectionId },
    Extend { circ_id: CircuitId, addr: SocketAddr, packet: Seq<u8> },
    Begin { circ_id: CircuitId, stream_id: u16, target: Seq<char> },
}

impl View for Action {
    type V = ActionView;

    open spec fn view(&self) -> ActionView {
        match self {
            Action::Send { conn, packet } => ActionView::Send { conn: *conn, packet: packet@ },
            Action::Write { conn, data } => ActionView::Write { conn: *conn, data: data@ },
            Action::Close { conn } => ActionView::Close { conn: *conn },
            Action::Extend { circ_id, addr, packet } => ActionView::Extend {
                circ_id: *circ_id,
                addr: *addr,
                packet: packet@,
            },
            Action::Begin { circ_id, stream_id, target } => ActionView::Begin {
                circ_id: *circ_id,
                stream_id: *stream_id,
                target: target@,
            },
        }
    }
}

pub open spec fn action_views(list: Seq<Action>) -> Seq<ActionView> {
    list.map_values(|a: Action| a@)
}

/// How a step ended.
#[derive(Debug, Clone, Copy, PartialEq, Eq, Structural)]
pub enum Ending {
    /// The connection goes on.
    Continue,
    /// A keystream or a window can count no further. The connection cannot be served any more.
    Exhausted,
}

/// What a step comes to: the actions in order, and how it ended.
#[derive(Debug)]
pub struct Step {
    pub actions: Vec<Action>,
    pub end: Ending,
}

/// A `Step` as a mathematical value.
pub ghost struct StepView {
    pub actions: Seq<ActionView>,
    pub end: Ending,
}

impl View for Step {
    type V = StepView;

    open spec fn view(&self) -> StepView {
        StepView { actions: action_views(self.actions@), end: self.end }
    }
}

/// A step without actions.
pub open spec fn idle() -> StepView {
    StepView { actions: Seq::empty(), end: Ending::Continue }
}

pub open spec fn ended(end: Ending) -> StepView {
    StepView { actions: Seq::empty(), end }
}

pub open spec fn one(a: ActionView) -> StepView {
    StepView { actions: seq![a], end: Ending::Continue }
}

/// Sends a relay cell back along a circuit, behind the actions that came before.
pub open spec fn reply_step(
    c: CircuitView,
    conn: ConnectionId,
    cell: RelayCellView,
    before: Seq<ActionView>,
) -> (CircuitView, StepView) {
    if circuit::can_seal(c.backward_cipher, cell) {
        (
            CircuitView {
                backward_cipher: circuit::cipher_after(c.backward_cipher, cell),
                ..c
            },
            StepView {
                actions: before.push(
                    ActionView::Send {
                        conn,
                        packet: circuit::sealed_packet(c.id, c.backward_cipher, cell),
                    },
                ),
                end: Ending::Continue,
            },
        )
    } else {
        (c, StepView { actions: before, end: Ending::Exhausted })
    }
}

/// The IPv4 address and port in the six bytes of `data` at `i`.
pub open spec fn addr_at(data: Seq<u8>, i: int) -> SocketAddr {
    SocketAddr::V4 {
        ip: Ipv4Addr { a: data[i], b: data[i + 1], c: data[i + 2], d: data[i + 3] },
        port: bytes::be16_at(data, i + 4),
    }
}

/// `Extend`: the next hop's address and port in six bytes, and what to create the circuit with.
pub open spec fn extend_step(c: CircuitView, data: Seq<u8>) -> StepView {
    if data.len() < 6 {
        idle()
    } else {
        one(
            ActionView::Extend {
                circ_id: c.id,
                addr: addr_at(data, 0),
                packet: wire::cell_packet(
                    CellView { circ_id: c.id, command: CellCommand::Create, payload: data.skip(6) },
                ),
            },
        )
    }
}

/// The circuit's part of `Data`: its window shrinks by one, and is opened again with a `SendMe`
/// where an increment is used up.
pub open spec fn circuit_window_step(c: CircuitView, conn: ConnectionId) -> (CircuitView, StepView) {
    if c.deliver_window == 0 {
        (c, ended(Ending::Exhausted))
    } else {
        let less = CircuitView { deliver_window: (c.deliver_window - 1) as u16, ..c };
        if less.deliver_window <= circuit::CIRCUIT_WINDOW_START
            - circuit::CIRCUIT_WINDOW_INCREMENT {
            let (after, step) = reply_step(less, conn, circuit::sendme(0), Seq::empty());
            if step.end == Ending::Continue {
                (
                    CircuitView {
                        deliver_window: (less.deliver_window
                            + circuit::CIRCUIT_WINDOW_INCREMENT) as u16,
                        ..after
                    },
                    step,
                )
            } else {
                (after, step)
            }
        } else {
            (less, idle())
        }
    }
}

/// The stream's part of `Data`: its window shrinks by one, the data is written out, and the window
/// is opened again with a `SendMe` where an increment is used up.
pub open spec fn stream_window_step(
    c: CircuitView,
    conn: ConnectionId,
    stream_id: u16,
    data: Seq<u8>,
    before: Seq<ActionView>,
) -> (CircuitView, StepView) {
    if !c.streams.dom().contains(stream_id) {
        (c, StepView { actions: before, end: Ending::Continue })
    } else {
        let s = c.streams[stream_id];
        if s.deliver_window == 0 {
            (c, StepView { actions: before, end: Ending::Exhausted })
        } else {
            let less = (s.deliver_window - 1) as u16;
            let low = less <= circuit::STREAM_WINDOW_START - circuit::STREAM_WINDOW_INCREMENT;
            let window = if low {
                (less + circuit::STREAM_WINDOW_INCREMENT) as u16
            } else {
                less
            };
            let after = CircuitView {
                streams: c.streams.insert(stream_id, Stream { deliver_window: window, ..s }),
                ..c
            };
            let written = before.push(ActionView::Write { conn: s.tcp_stream, data });
            if low {
                reply_step(after, conn, circuit::sendme(stream_id), written)
            } else {
                (after, StepView { actions: written, end: Ending::Continue })
            }
        }
    }
}

pub open spec fn data_step(c: CircuitView, conn: ConnectionId, rc: RelayCellView) -> (
    CircuitView,
    StepView,
) {
    let (after, step) = circuit_window_step(c, conn);
    if step.end == Ending::Continue {
        stream_window_step(after, conn, rc.stream_id, rc.data, step.actions)
    } else {
        (after, step)
    }
}

/// `SendMe`: the other end can take more on the circuit, or on one of its streams.
pub open spec fn sendme_step(c: CircuitView, stream_id: u16) -> (CircuitView, StepView) {
    if stream_id == 0 {
        if c.package_window + circuit::CIRCUIT_WINDOW_INCREMENT > u16::MAX {
            (c, ended(Ending::Exhausted))
        } else {
            (
                CircuitView {
                    package_window: (c.package_window
                        + circuit::CIRCUIT_WINDOW_INCREMENT) as u16,
                    ..c
                },
                idle(),
            )
        }
    } else if c.streams.dom().contains(stream_id) {
        let s = c.streams[stream_id];
        if s.package_window + circuit::STREAM_WINDOW_INCREMENT > u16::MAX {
            (c, ended(Ending::Exhausted))
        } else {
            let more = Stream {
                package_window: (s.package_window + circuit::STREAM_WINDOW_INCREMENT) as u16,
                ..s
            };
            (CircuitView { streams: c.streams.insert(stream_id, more), ..c }, idle())
        }
    } else {
        (c, idle())
    }
}

/// `End`: the stream is closed.
pub open spec fn end_step(c: CircuitView, stream_id: u16) -> (CircuitView, StepView) {
    if c.streams.dom().contains(stream_id) {
        (
            CircuitView { streams: c.streams.remove(stream_id), ..c },
            one(ActionView::Close { conn: c.streams[stream_id].tcp_stream }),
        )
    } else {
        (c, idle())
    }
}

/// Sends a relay cell back along the circuit `to`, to the connection that it came from.
pub open spec fn forward_step(m: ManagerView, to: CircuitId, cell: RelayCellView) -> (
    ManagerView,
    StepView,
) {
    if !m.circuits.dom().contains(to) {
        (m, idle())
    } else {
        match m.circuits[to].prev_hop_stream {
            None => (m, idle()),
            Some(conn) => {
                let (after, step) = reply_step(m.circuits[to], conn, cell, Seq::empty());
                (m.with_circuit(after), step)
            },
        }
    }
}

/// Answers a relay cell on the circuit that it came on.
pub open spec fn answer_step(
    m: ManagerView,
    id: CircuitId,
    conn: ConnectionId,
    cell: RelayCellView,
) -> (ManagerView, StepView) {
    let (after, step) = reply_step(m.circuits[id], conn, cell, Seq::empty());
    (m.with_circuit(after), step)
}

/// `EstablishIntro`: this circuit leads to the service with this key.
pub open spec fn establish_intro_step(
    m: ManagerView,
    id: CircuitId,
    conn: ConnectionId,
    data: Seq<u8>,
) -> (ManagerView, StepView) {
    if data.len() >= 32 && identity::valid_key(data.take(32)) {
        answer_step(
            ManagerView { intro_points: m.intro_points.insert(data.take(32), id), ..m },
            id,
            conn,
            circuit::plain_relay_cell(0, RelayCommand::IntroEstablished, Seq::empty()),
        )
    } else {
        (m, idle())
    }
}

/// `Introduce1`: goes on to the service, unchanged, as `Introduce2`.
pub open spec fn introduce1_step(m: ManagerView, data: Seq<u8>) -> (ManagerView, StepView) {
    if data.len() >= 32 && identity::valid_key(data.take(32)) && m.intro_points.dom().contains(
        data.take(32),
    ) {
        forward_step(
            m,
            m.intro_points[data.take(32)],
            circuit::plain_relay_cell(0, RelayCommand::Introduce2, data),
        )
    } else {
        (m, idle())
    }
}

/// `EstablishRendezvous`: a client waits here with this cookie.
pub open spec fn establish_rendezvous_step(
    m: ManagerView,
    id: CircuitId,
    conn: ConnectionId,
    data: Seq<u8>,
) -> (ManagerView, StepView) {
    if data.len() == 20 {
        answer_step(
            ManagerView { rendezvous_points: m.rendezvous_points.insert(data, id), ..m },
            id,
            conn,
            circuit::plain_relay_cell(0, RelayCommand::RendezvousEstablished, Seq::empty()),
        )
    } else {
        (m, idle())
    }
}

/// `Rendezvous1`: links this circuit with the one that waits with the cookie, both ways, and tells
/// the client.
pub open spec fn rendezvous1_step(m: ManagerView, id: CircuitId, data: Seq<u8>) -> (
    ManagerView,
    StepView,
) {
    if data.len() >= 20 && m.rendezvous_points.dom().contains(data.take(20)) {
        let client = m.rendezvous_points[data.take(20)];
        let linked = m.with_circuit(
            CircuitView { linked_circuit_id: Some(client), ..m.circuits[id] },
        );
        if linked.circuits.dom().contains(client) {
            forward_step(
                linked.with_circuit(
                    CircuitView { linked_circuit_id: Some(id), ..linked.circuits[client] },
                ),
                client,
                circuit::plain_relay_cell(0, RelayCommand::Rendezvous2, data.skip(20)),
            )
        } else {
            (linked, idle())
        }
    } else {
        (m, idle())
    }
}

/// Whether a linked circuit keeps a command to itself.
pub open spec fn sets_up_rendezvous(command: RelayCommand) -> bool {
    command == RelayCommand::EstablishRendezvous || command == RelayCommand::Rendezvous1
}

/// A relay cell that this hop interprets.
pub open spec fn recognized_step(
    m: ManagerView,
    id: CircuitId,
    conn: ConnectionId,
    rc: RelayCellView,
) -> (ManagerView, StepView) {
    let c = m.circuits[id];
    if c.linked_circuit_id is Some && !sets_up_rendezvous(rc.command) {
        forward_step(m, c.linked_circuit_id.unwrap(), rc)
    } else {
        match rc.command {
            RelayCommand::Extend => (m, extend_step(c, rc.data)),
            RelayCommand::Begin => (
                m,
                one(
                    ActionView::Begin {
                        circ_id: c.id,
                        stream_id: rc.stream_id,
                        target: encoding::lossy_text(rc.data),
                    },
                ),
            ),
            RelayCommand::Data => {
                let (after, step) = data_step(c, conn, rc);
                (m.with_circuit(after), step)
            },
            RelayCommand::SendMe => {
                let (after, step) = sendme_step(c, rc.stream_id);
                (m.with_circuit(after), step)
            },
            RelayCommand::End => {
                let (after, step) = end_step(c, rc.stream_id);
                (m.with_circuit(after), step)
            },
            RelayCommand::EstablishIntro => establish_intro_step(m, id, conn, rc.data),
            RelayCommand::Introduce1 => introduce1_step(m, rc.data),
            RelayCommand::EstablishRendezvous => establish_rendezvous_step(m, id, conn, rc.data),
            RelayCommand::Rendezvous1 => rendezvous1_step(m, id, rc.data),
            _ => (m, idle()),
        }
    }
}

/// Whether bytes that came out of the decryption of a hop are a relay cell for that hop.
pub open spec fn is_recognized(plain: Seq<u8>) -> bool {
    wire::get_relay_cell(plain) matches Some(rc) && rc.recognized == 0
}

/// Sends what a hop does not recognize on to the next hop, if there is one: it is for a later one,
/// under the layers that are left.
pub open spec fn pass_on_step(m: ManagerView, id: CircuitId, plain: Seq<u8>) -> StepView {
    match m.circuits[id].next_hop_stream {
        None => idle(),
        Some(next) => one(
            ActionView::Send {
                conn: next,
                packet: wire::cell_packet(
                    CellView { circ_id: id, command: CellCommand::Relay, payload: plain },
                ),
            },
        ),
    }
}

/// What came out of the decryption of this hop: a cell for it, or for a later hop.
pub open spec fn opened_step(
    m: ManagerView,
    id: CircuitId,
    conn: ConnectionId,
    plain: Seq<u8>,
) -> (ManagerView, StepView) {
    if is_recognized(plain) {
        recognized_step(m, id, conn, wire::get_relay_cell(plain).unwrap())
    } else {
        (m, pass_on_step(m, id, plain))
    }
}

/// A cell with the command `Relay`: one layer is taken off, and what is under it is interpreted or
/// sent on.
pub open spec fn relay_step(
    m: ManagerView,
    id: CircuitId,
    conn: ConnectionId,
    payload: Seq<u8>,
) -> (ManagerView, StepView) {
    if !m.circuits.dom().contains(id) {
        (m, idle())
    } else {
        match m.circuits[id].forward_cipher {
            None => (m, idle()),
            Some(f) => if !f.has_room(payload.len()) {
                (m, ended(Ending::Exhausted))
            } else {
                opened_step(
                    m.with_circuit(
                        CircuitView {
                            forward_cipher: Some(f.after(payload.len())),
                            ..m.circuits[id]
                        },
                    ),
                    id,
                    conn,
                    f.output(payload),
                )
            },
        }
    }
}

fn act(actions: &mut Vec<Action>, a: Action)
    ensures
        action_views(final(actions)@) == action_views(old(actions)@).push(a@),
{
    actions.push(a);
    assert(action_views(actions@) =~= action_views(old(actions)@).push(a@));
}

fn no_actions() -> (r: Vec<Action>)
    ensures
        action_views(r@) == Seq::<ActionView>::empty(),
{
    let r: Vec<Action> = Vec::new();
    assert(action_views(r@) =~= Seq::empty());
    r
}

fn no_data() -> (r: Vec<u8>)
    ensures
        r@ == Seq::<u8>::empty(),
{
    Vec::new()
}

fn reply(c: &mut Circuit, conn: ConnectionId, cell: &RelayCell, actions: &mut Vec<Action>) -> (r:
    Ending)
    ensures
        ({
            let (after, step) = reply_step(old(c)@, conn, cell@, action_views(old(actions)@));
            final(c)@ == after && action_views(final(actions)@) == step.actions && r == step.end
        }),
{
    let mut cipher = c.backward_cipher;
    match circuit::seal(c.id, &mut cipher, cell) {
        Some(packet) => {
            c.backward_cipher = cipher;
            act(actions, Action::Send { conn, packet });
            Ending::Continue
        },
        None => Ending::Exhausted,
    }
}

/// Reads the IPv4 address and port in six bytes.
pub fn read_addr_at(data: &[u8], i: usize) -> (r: SocketAddr)
    requires
        i + 6 <= data@.len(),
        i + 6 <= usize::MAX,
    ensures
        r == addr_at(data@, i as int),
{
    SocketAddr::V4 {
        ip: Ipv4Addr { a: data[i], b: data[i + 1], c: data[i + 2], d: data[i + 3] },
        port: bytes::read_be16(data, i + 4),
    }
}

fn on_extend(c: &Circuit, data: &[u8], actions: &mut Vec<Action>)
    requires
        action_views(old(actions)@) == Seq::<ActionView>::empty(),
    ensures
        action_views(final(actions)@) == extend_step(c@, data@).actions,
{
    let n: usize = data.len();
    if n < 6 {
        return;
    }
    let payload = bytes::copy_range(data, 6, n);
    assert(payload@ =~= data@.skip(6));
    let create = Message::TorCell(Cell { circ_id: c.id, command: CellCommand::Create, payload });
    let packet = create.packet();
    act(actions, Action::Extend { circ_id: c.id, addr: read_addr_at(data, 0), packet });
}

fn on_circuit_window(c: &mut Circuit, conn: ConnectionId, actions: &mut Vec<Action>) -> (r: Ending)
    requires
        action_views(old(actions)@) == Seq::<ActionView>::empty(),
    ensures
        ({
            let (after, step) = circuit_window_step(old(c)@, conn);
            final(c)@ == after && action_views(final(actions)@) == step.actions && r == step.end
        }),
{
    if c.deliver_window == 0 {
        return Ending::Exhausted;
    }
    c.deliver_window = c.deliver_window - 1;
    if c.deliver_window <= circuit::CIRCUIT_WINDOW_START - circuit::CIRCUIT_WINDOW_INCREMENT {
        let cell = RelayCell::plain(0, RelayCommand::SendMe, no_data());
        match reply(c, conn, &cell, actions) {
            Ending::Continue => {
                c.deliver_window = c.deliver_window + circuit::CIRCUIT_WINDOW_INCREMENT;
            },
            end => {
                return end;
            },
        }
    }
    Ending::Continue
}

fn on_stream_window(
    c: &mut Circuit,
    conn: ConnectionId,
    stream_id: u16,
    data: Vec<u8>,
    actions: &mut Vec<Action>,
) -> (r: Ending)
    ensures
        ({
            let (after, step) = stream_window_step(
                old(c)@,
                conn,
                stream_id,
                data@,
                action_views(old(actions)@),
            );
            final(c)@ == after && action_views(final(actions)@) == step.actions && r == step.end
        }),
{
    let s = match c.streams.get(&stream_id) {
        Some(s) => *s,
        None => {
            return Ending::Continue;
        },
    };
    if s.deliver_window == 0 {
        return Ending::Exhausted;
    }
    let less: u16 = s.deliver_window - 1;
    let low = less <= circuit::STREAM_WINDOW_START - circuit::STREAM_WINDOW_INCREMENT;
    let window: u16 = if low {
        less + circuit::STREAM_WINDOW_INCREMENT
    } else {
        less
    };
    c.streams.insert(
        stream_id,
        Stream {
            stream_id: s.stream_id,
            tcp_stream: s.tcp_stream,
            package_window: s.package_window,
            deliver_window: window,
        },
    );
    act(actions, Action::Write { conn: s.tcp_stream, data });
    if low {
        let cell = RelayCell::plain(stream_id, RelayCommand::SendMe, no_data());
        return reply(c, conn, &cell, actions);
    }
    Ending::Continue
}

fn on_data(
    c: &mut Circuit,
    conn: ConnectionId,
    stream_id: u16,
    data: Vec<u8>,
    actions: &mut Vec<Action>,
) -> (r: Ending)
    requires
        action_views(old(actions)@) == Seq::<ActionView>::empty(),
    ensures
        ({
            let (after, step) = data_step(
                old(c)@,
                conn,
                circuit::plain_relay_cell(stream_id, RelayCommand::Data, data@),
            );
            final(c)@ == after && action_views(final(actions)@) == step.actions && r == step.end
        }),
{
    match on_circuit_window(c, conn, actions) {
        Ending::Continue => on_stream_window(c, conn, stream_id, data, actions),
        end => end,
    }
}

fn on_sendme(c: &mut Circuit, stream_id: u16) -> (r: Ending)
    ensures
        ({
            let (after, step) = sendme_step(old(c)@, stream_id);
            final(c)@ == after && step.actions == Seq::<ActionView>::empty() && r == step.end
        }),
{
    if stream_id == 0 {
        if c.package_window > 65535 - circuit::CIRCUIT_WINDOW_INCREMENT {
            return Ending::Exhausted;
        }
        c.package_window = c.package_window + circuit::CIRCUIT_WINDOW_INCREMENT;
        return Ending::Continue;
    }
    let s = match c.streams.get(&stream_id) {
        Some(s) => *s,
        None => {
            return Ending::Continue;
        },
    };
    if s.package_window > 65535 - circuit::STREAM_WINDOW_INCREMENT {
        return Ending::Exhausted;
    }
    c.streams.insert(
        stream_id,
        Stream {
            stream_id: s.stream_id,
            tcp_stream: s.tcp_stream,
            package_window: s.package_window + circuit::STREAM_WINDOW_INCREMENT,
            deliver_window: s.deliver_window,
        },
    );
    Ending::Continue
}

fn on_end(c: &mut Circuit, stream_id: u16, actions: &mut Vec<Action>)
    requires
        action_views(old(actions)@) == Seq::<ActionView>::empty(),
    ensures
        ({
            let (after, step) = end_step(old(c)@, stream_id);
            final(c)@ == after && action_views(final(actions)@) == step.actions
        }),
{
    match c.streams.remove(&stream_id) {
        Some(s) => act(actions, Action::Close { conn: s.tcp_stream }),
        None => {
            assert(c.streams@ =~= old(c).streams@);
        },
    }
}

/// Taking a circuit out and putting another back under its number replaces it.
proof fn lemma_put_back(m: ManagerView, id: CircuitId, c: CircuitView)
    requires
        c.id == id,
    ensures
        (ManagerView { circuits: m.circuits.remove(id), ..m }).with_circuit(c) == m.with_circuit(c),
{
    assert(m.circuits.remove(id).insert(id, c) =~= m.circuits.insert(id, c));
}

proof fn lemma_unchanged(m: ManagerView, id: CircuitId)
    requires
        m.circuits.dom().contains(id),
        m.circuits[id].id == id,
    ensures
        m.with_circuit(m.circuits[id]) == m,
{
    assert(m.circuits.insert(id, m.circuits[id]) =~= m.circuits);
}

fn forward(
    manager: &mut CircuitManager,
    to: CircuitId,
    cell: &RelayCell,
    actions: &mut Vec<Action>,
) -> (r: Ending)
    requires
        action_views(old(actions)@) == Seq::<ActionView>::empty(),
    ensures
        ({
            let (after, step) = forward_step(old(manager)@, to, cell@);
            final(manager)@ == after && action_views(final(actions)@) == step.actions && r
                == step.end
        }),
{
    let conn: ConnectionId = match manager.get_circuit(to) {
        None => {
            return Ending::Continue;
        },
        Some(c) => match c.prev_hop_stream {
            None => {
                return Ending::Continue;
            },
            Some(conn) => conn,
        },
    };
    answer(manager, to, conn, cell, actions)
}

fn answer(
    manager: &mut CircuitManager,
    id: CircuitId,
    conn: ConnectionId,
    cell: &RelayCell,
    actions: &mut Vec<Action>,
) -> (r: Ending)
    requires
        old(manager)@.circuits.dom().contains(id),
        action_views(old(actions)@) == Seq::<ActionView>::empty(),
    ensures
        ({
            let (after, step) = answer_step(old(manager)@, id, conn, cell@);
            final(manager)@ == after && action_views(final(actions)@) == step.actions && r
                == step.end
        }),
{
    match manager.take_circuit(id) {
        Some(c) => {
            let mut c = c;
            let end = reply(&mut c, conn, cell, actions);
            proof {
                lemma_put_back(old(manager)@, id, c@);
            }
            manager.add_circuit(c);
            end
        },
        None => Ending::Continue,
    }
}

fn on_establish_intro(
    manager: &mut CircuitManager,
    id: CircuitId,
    conn: ConnectionId,
    data: &[u8],
    actions: &mut Vec<Action>,
) -> (r: Ending)
    requires
        old(manager)@.circuits.dom().contains(id),
        action_views(old(actions)@) == Seq::<ActionView>::empty(),
    ensures
        ({
            let (after, step) = establish_intro_step(old(manager)@, id, conn, data@);
            final(manager)@ == after && action_views(final(actions)@) == step.actions && r
                == step.end
        }),
{
    if data.len() < 32 {
        return Ending::Continue;
    }
    let raw = bytes::array_32(data);
    assert(raw@ =~= data@.take(32));
    match VerifyingKey::from_bytes(&raw) {
        Some(key) => {
            manager.set_intro_point(key, id);
            let cell = RelayCell::plain(0, RelayCommand::IntroEstablished, no_data());
            answer(manager, id, conn, &cell, actions)
        },
        None => Ending::Continue,
    }
}

fn on_introduce1(manager: &mut CircuitManager, data: Vec<u8>, actions: &mut Vec<Action>) -> (r:
    Ending)
    requires
        action_views(old(actions)@) == Seq::<ActionView>::empty(),
    ensures
        ({
            let (after, step) = introduce1_step(old(manager)@, data@);
            final(manager)@ == after && action_views(final(actions)@) == step.actions && r
                == step.end
        }),
{
    if data.len() < 32 {
        return Ending::Continue;
    }
    let raw = bytes::array_32(data.as_slice());
    assert(raw@ =~= data@.take(32));
    match VerifyingKey::from_bytes(&raw) {
        Some(key) => match manager.intro_point(&key) {
            Some(service) => {
                let cell = RelayCell::plain(0, RelayCommand::Introduce2, data);
                forward(manager, service, &cell, actions)
            },
            None => Ending::Continue,
        },
        None => Ending::Continue,
    }
}

fn on_establish_rendezvous(
    manager: &mut CircuitManager,
    id: CircuitId,
    conn: ConnectionId,
    data: &[u8],
    actions: &mut Vec<Action>,
) -> (r: Ending)
    requires
        old(manager)@.circuits.dom().contains(id),
        action_views(old(actions)@) == Seq::<ActionView>::empty(),
    ensures
        ({
            let (after, step) = establish_rendezvous_step(old(manager)@, id, conn, data@);
            final(manager)@ == after && action_views(final(actions)@) == step.actions && r
                == step.end
        }),
{
    if data.len() != 20 {
        return Ending::Continue;
    }
    let cookie = bytes::array_20(data);
    assert(cookie@ =~= data@);
    manager.set_rendezvous_point(cookie, id);
    let cell = RelayCell::plain(0, RelayCommand::RendezvousEstablished, no_data());
    answer(manager, id, conn, &cell, actions)
}

fn link(manager: &mut CircuitManager, id: CircuitId, other: CircuitId) -> (r: bool)
    ensures
        r == old(manager)@.circuits.dom().contains(id),
        final(manager)@ == if r {
            old(manager)@.with_circuit(
                CircuitView {
                    linked_circuit_id: Some(other),
                    ..old(manager)@.circuits[id]
                },
            )
        } else {
            old(manager)@
        },
        r ==> old(manager)@.circuits[id].id == id,
{
    match manager.take_circuit(id) {
        Some(c) => {
            let mut c = c;
            c.linked_circuit_id = Some(other);
            proof {
                lemma_put_back(old(manager)@, id, c@);
            }
            manager.add_circuit(c);
            true
        },
        None => {
            assert(old(manager)@.circuits.remove(id) =~= old(manager)@.circuits);
            false
        },
    }
}

fn on_rendezvous1(
    manager: &mut CircuitManager,
    id: CircuitId,
    data: &[u8],
    actions: &mut Vec<Action>,
) -> (r: Ending)
    requires
        old(manager)@.circuits.dom().contains(id),
        action_views(old(actions)@) == Seq::<ActionView>::empty(),
    ensures
        ({
            let (after, step) = rendezvous1_step(old(manager)@, id, data@);
            final(manager)@ == after && action_views(final(actions)@) == step.actions && r
                == step.end
        }),
{
    let n: usize = data.len();
    if n < 20 {
        return Ending::Continue;
    }
    let cookie = bytes::array_20(data);
    assert(cookie@ =~= data@.take(20));
    let client: CircuitId = match manager.rendezvous_point(&cookie) {
        Some(client) => client,
        None => {
            return Ending::Continue;
        },
    };
    let _ = link(manager, id, client);
    if !link(manager, client, id) {
        return Ending::Continue;
    }
    let tail = bytes::copy_range(data, 20, n);
    assert(tail@ =~= data@.skip(20));
    let cell = RelayCell::plain(0, RelayCommand::Rendezvous2, tail);
    forward(manager, client, &cell, actions)
}

fn on_circuit(
    manager: &mut CircuitManager,
    id: CircuitId,
    conn: ConnectionId,
    rc: RelayCell,
    actions: &mut Vec<Action>,
) -> (r: Ending)
    requires
        old(manager)@.circuits.dom().contains(id),
        action_views(old(actions)@) == Seq::<ActionView>::empty(),
        rc.command == RelayCommand::Data || rc.command == RelayCommand::SendMe || rc.command
            == RelayCommand::End,
    ensures
        ({
            let c = old(manager)@.circuits[id];
            let (after, step) = match rc.command {
                RelayCommand::Data => data_step(c, conn, rc@),
                RelayCommand::SendMe => sendme_step(c, rc.stream_id),
                _ => end_step(c, rc.stream_id),
            };
            final(manager)@ == old(manager)@.with_circuit(after) && action_views(final(actions)@)
                == step.actions && r == step.end
        }),
{
    match manager.take_circuit(id) {
        Some(c) => {
            let mut c = c;
            let end = match rc.command {
                RelayCommand::Data => on_data(&mut c, conn, rc.stream_id, rc.data, actions),
                RelayCommand::SendMe => on_sendme(&mut c, rc.stream_id),
                _ => {
                    on_end(&mut c, rc.stream_id, actions);
                    Ending::Continue
                },
            };
            proof {
                lemma_put_back(old(manager)@, id, c@);
            }
            manager.add_circuit(c);
            end
        },
        None => Ending::Continue,
    }
}

/// Interprets a relay cell on a circuit of this relay.
fn recognized(
    manager: &mut CircuitManager,
    id: CircuitId,
    conn: ConnectionId,
    rc: RelayCell,
) -> (r: Step)
    requires
        old(manager)@.circuits.dom().contains(id),
    ensures
        (final(manager)@, r@) == recognized_step(old(manager)@, id, conn, rc@),
{
    let mut actions = no_actions();
    let linked: Option<CircuitId> = match manager.get_circuit(id) {
        Some(c) => c.linked_circuit_id,
        None => None,
    };
    match linked {
        Some(to) => {
            if rc.command != RelayCommand::EstablishRendezvous && rc.command
                != RelayCommand::Rendezvous1 {
                let end = forward(manager, to, &rc, &mut actions);
                return Step { actions, end };
            }
        },
        None => {},
    }
    let end = match rc.command {
        RelayCommand::Extend => {
            match manager.get_circuit(id) {
                Some(c) => on_extend(c, rc.data.as_slice(), &mut actions),
                None => {},
            }
            Ending::Continue
        },
        RelayCommand::Begin => {
            let target = encoding::text_of(rc.data.as_slice());
            let ghost c = manager@.circuits[id];
            match manager.get_circuit(id) {
                Some(c) => act(
                    &mut actions,
                    Action::Begin { circ_id: c.id, stream_id: rc.stream_id, target },
                ),
                None => {},
            }
            assert(action_views(actions@) =~= one(
                ActionView::Begin {
                    circ_id: c.id,
                    stream_id: rc.stream_id,
                    target: encoding::lossy_text(rc.data@),
                },
            ).actions);
            Ending::Continue
        },
        RelayCommand::Data => on_circuit(manager, id, conn, rc, &mut actions),
        RelayCommand::SendMe => on_circuit(manager, id, conn, rc, &mut actions),
        RelayCommand::End => on_circuit(manager, id, conn, rc, &mut actions),
        RelayCommand::EstablishIntro => on_establish_intro(
            manager,
            id,
            conn,
            rc.data.as_slice(),
            &mut actions,
        ),
        RelayCommand::Introduce1 => on_introduce1(manager, rc.data, &mut actions),
        RelayCommand::EstablishRendezvous => on_establish_rendezvous(
            manager,
            id,
            conn,
            rc.data.as_slice(),
            &mut actions,
        ),
        RelayCommand::Rendezvous1 => on_rendezvous1(
            manager,
            id,
            rc.data.as_slice(),
            &mut actions,
        ),
        _ => Ending::Continue,
    };
    Step { actions, end }
}

/// Takes what came out of the decryption of this hop.
fn opened(
    manager: &mut CircuitManager,
    id: CircuitId,
    conn: ConnectionId,
    plain: Vec<u8>,
) -> (r: Step)
    requires
        old(manager)@.circuits.dom().contains(id),
    ensures
        (final(manager)@, r@) == opened_step(old(manager)@, id, conn, plain@),
{
    match RelayCell::decode(plain.as_slice()) {
        Some(rc) => {
            if rc.recognized == 0 {
                return recognized(manager, id, conn, rc);
            }
        },
        None => {},
    }
    let mut actions = no_actions();
    let next: Option<ConnectionId> = match manager.get_circuit(id) {
        Some(c) => c.next_hop_stream,
        None => None,
    };
    match next {
        Some(next) => {
            let cell = Cell { circ_id: id, command: CellCommand::Relay, payload: plain };
            let packet = Message::TorCell(cell).packet();
            act(&mut actions, Action::Send { conn: next, packet });
            assert(action_views(actions@) =~= one(
                ActionView::Send { conn: next, packet: packet@ },
            ).actions);
        },
        None => {},
    }
    Step { actions, end: Ending::Continue }
}

/// Takes a cell with the command `Relay`.
pub fn handle_relay_cell(
    manager: &mut CircuitManager,
    id: CircuitId,
    conn: ConnectionId,
    payload: Vec<u8>,
) -> (r: Step)
    ensures
        (final(manager)@, r@) == relay_step(old(manager)@, id, conn, payload@),
{
    match manager.take_circuit(id) {
        None => {
            assert(manager@.circuits =~= old(manager)@.circuits);
            Step { actions: no_actions(), end: Ending::Continue }
        },
        Some(c) => {
            let mut c = c;
            let mut plain = payload;
            match c.forward_cipher {
                None => {
                    proof {
                        lemma_put_back(old(manager)@, id, c@);
                        lemma_unchanged(old(manager)@, id);
                    }
                    manager.add_circuit(c);
                    Step { actions: no_actions(), end: Ending::Continue }
                },
                Some(f) => {
                    let mut f = f;
                    let room = f.apply(&mut plain);
                    c.forward_cipher = Some(f);
                    proof {
                        lemma_put_back(old(manager)@, id, c@);
                        if !room {
                            lemma_unchanged(old(manager)@, id);
                        }
                    }
                    manager.add_circuit(c);
                    if !room {
                        return Step { actions: no_actions(), end: Ending::Exhausted };
                    }
                    opened(manager, id, conn, plain)
                },
            }
        },
    }
}

/// A cell that a next hop sent back: this hop adds its own layer, and sends it on towards the client.
pub open spec fn returned_step(m: ManagerView, next: ConnectionId, cell: CellView) -> (
    ManagerView,
    StepView,
) {
    let c = m.circuits[cell.circ_id];
    if cell.command != CellCommand::Relay || !m.circuits.dom().contains(cell.circ_id)
        || c.next_hop_stream != Some(next) {
        (m, idle())
    } else {
        match (c.prev_hop_stream, c.backward_cipher) {
            (Some(conn), Some(b)) => if b.has_room(cell.payload.len()) {
                (
                    m.with_circuit(
                        CircuitView { backward_cipher: Some(b.after(cell.payload.len())), ..c },
                    ),
                    one(
                        ActionView::Send {
                            conn,
                            packet: wire::cell_packet(
                                CellView { payload: b.output(cell.payload), ..cell },
                            ),
                        },
                    ),
                )
            } else {
                (m, ended(Ending::Exhausted))
            },
            _ => (m, idle()),
        }
    }
}

/// What comes of a payload from a next hop.
pub open spec fn return_step(m: ManagerView, next: ConnectionId, payload: Seq<u8>) -> (
    ManagerView,
    StepView,
) {
    match wire::get_message(payload) {
        Some(MessageView::TorCell(cell)) => returned_step(m, next, cell),
        _ => (m, idle()),
    }
}

/// Takes the payload of a packet that arrived from the next hop of a circuit.
pub fn handle_return(manager: &mut CircuitManager, next: ConnectionId, payload: &[u8]) -> (r: Step)
    ensures
        (final(manager)@, r@) == return_step(old(manager)@, next, payload@),
{
    let mut actions = no_actions();
    let cell = match Message::decode(payload) {
        Some(Message::TorCell(cell)) => cell,
        _ => {
            return Step { actions, end: Ending::Continue };
        },
    };
    let id: CircuitId = cell.circ_id;
    if cell.command != CellCommand::Relay {
        return Step { actions, end: Ending::Continue };
    }
    let mut c = match manager.take_circuit(id) {
        Some(c) => c,
        None => {
            assert(manager@.circuits =~= old(manager)@.circuits);
            return Step { actions, end: Ending::Continue };
        },
    };
    let ours = match c.next_hop_stream {
        Some(n) => n == next,
        None => false,
    };
    let mut end = Ending::Continue;
    if ours {
        match (c.prev_hop_stream, c.backward_cipher) {
            (Some(conn), Some(b)) => {
                let mut b = b;
                let mut payload = cell.payload;
                if b.apply(&mut payload) {
                    c.backward_cipher = Some(b);
                    let out = Cell { circ_id: id, command: CellCommand::Relay, payload };
                    let packet = Message::TorCell(out).packet();
                    act(&mut actions, Action::Send { conn, packet });
                    assert(action_views(actions@) =~= one(
                        ActionView::Send { conn, packet: packet@ },
                    ).actions);
                } else {
                    end = Ending::Exhausted;
                }
            },
            _ => {},
        }
    }
    proof {
        lemma_put_back(old(manager)@, id, c@);
        lemma_unchanged(old(manager)@, id);
    }
    manager.add_circuit(c);
    Step { actions, end }
}

/// The circuit that a `Create` cell makes.
pub open spec fn created_circuit(id: CircuitId, conn: ConnectionId, key: Seq<u8>) -> CircuitView {
    circuit::fresh_circuit(
        id,
        Some(conn),
        crypto::fresh_cipher(key),
        crypto::fresh_cipher(key),
    )
}

/// The answer to a `Create` cell.
pub open spec fn created_packet(id: CircuitId, public: Seq<u8>) -> Seq<u8> {
    wire::cell_packet(CellView { circ_id: id, command: CellCommand::Created, payload: public })
}

/// Whether a list holds every stream number of a circuit once.
pub open spec fn is_stream_order(c: CircuitView, order: Seq<u16>) -> bool {
    order.no_duplicates() && forall|k: u16| #[trigger]
        order.contains(k) <==> c.streams.dom().contains(k)
}

/// The connections that a circuit leaves behind: that of its next hop, and those of its streams in
/// some order.
pub open spec fn leftovers(c: CircuitView, order: Seq<u16>) -> Seq<ConnectionId> {
    (match c.next_hop_stream {
        Some(next) => seq![next],
        None => Seq::empty(),
    }) + order.map_values(|k: u16| c.streams[k].tcp_stream)
}

/// Whether a list is the connections that the circuit under a number leaves behind, if there is one.
pub open spec fn left_behind(m: ManagerView, id: CircuitId, list: Seq<ConnectionId>) -> bool {
    if m.circuits.dom().contains(id) {
        exists|order: Seq<u16>| #[trigger]
            is_stream_order(m.circuits[id], order) && list == leftovers(m.circuits[id], order)
    } else {
        list == Seq::<ConnectionId>::empty()
    }
}

/// The connections of a circuit that is given up.
fn connections_of(c: &Circuit) -> (r: Vec<ConnectionId>)
    ensures
        exists|order: Seq<u16>| #[trigger]
            is_stream_order(c@, order) && r@ == leftovers(c@, order),
{
    let mut list: Vec<ConnectionId> = Vec::new();
    match c.next_hop_stream {
        Some(next) => list.push(next),
        None => {},
    }
    let ghost first = list@;
    let ghost mut order: Seq<u16> = Seq::empty();
    assert(list@ =~= first + order.map_values(|k: u16| c.streams@[k].tcp_stream));
    for (k, s) in it: c.streams.iter()
        invariant
            it.seq().no_duplicates(),
            it.seq() == vstd::std_specs::hash::spec_hash_map_iter(&c.streams).remaining(),
            order.len() == it.index(),
            forall|i: int| 0 <= i < it.index() ==> #[trigger] order[i] == *it.seq()[i].0,
            list@ == first + order.map_values(|k: u16| c.streams@[k].tcp_stream),
    {
        list.push(s.tcp_stream);
        proof {
            order = order.push(*k);
        }
        assert(c.streams@.contains_key(*k) && c.streams@[*k] == *s);
        assert(list@ =~= first + order.map_values(|k: u16| c.streams@[k].tcp_stream));
    }
    proof {
        let pairs = vstd::std_specs::hash::spec_hash_map_iter(&c.streams).remaining();
        assert forall|i: int, j: int| 0 <= i < j < order.len() implies order[i] != order[j] by {
            assert(pairs[i] != pairs[j]);
            assert(c.streams@.contains_key(*pairs[i].0) && c.streams@.contains_key(*pairs[j].0));
        }
        assert forall|k: u16| #[trigger] order.contains(k) <==> c@.streams.dom().contains(k) by {
            if order.contains(k) {
                let i = choose|i: int| 0 <= i < order.len() && order[i] == k;
                assert(c.streams@.contains_key(*pairs[i].0));
            }
            if c@.streams.dom().contains(k) {
                assert(c.streams@.contains_key(k));
                let i = choose|i: int| 0 <= i < pairs.len() && pairs[i] == (&k, &c.streams@[k]);
                assert(order[i] == k);
            }
        }
        assert(is_stream_order(c@, order));
        assert(list@ =~= leftovers(c@, order));
    }
    list
}

/// A circuit that was made for a `Create` cell: the answer, and the connections that the circuit that
/// had its number leaves behind.
pub struct Created {
    pub packet: Vec<u8>,
    pub closed: Vec<ConnectionId>,
}

/// Makes the circuit of a `Create` cell, once the handshake has given a key. A circuit that had the
/// same number is given up.
pub fn accept_create(
    manager: &mut CircuitManager,
    id: CircuitId,
    conn: ConnectionId,
    public: Vec<u8>,
    key: [u8; 32],
) -> (r: Created)
    ensures
        final(manager)@ == old(manager)@.with_circuit(created_circuit(id, conn, key@)),
        r.packet@ == created_packet(id, public@),
        left_behind(old(manager)@, id, r.closed@),
{
    let closed = match manager.get_circuit(id) {
        Some(c) => connections_of(c),
        None => Vec::new(),
    };
    let cipher = CircuitCipher::new(key);
    manager.add_circuit(Circuit::fresh(id, Some(conn), cipher, cipher));
    let answer = Message::TorCell(
        Cell { circ_id: id, command: CellCommand::Created, payload: public },
    );
    Created { packet: answer.packet(), closed }
}

pub open spec fn created_view(created: Option<Created>) -> Option<Seq<u8>> {
    match created {
        Some(c) => Some(c.packet@),
        None => None,
    }
}

/// The connections that are closed for a `Create` cell.
pub open spec fn closed_view(created: Option<Created>) -> Seq<ConnectionId> {
    match created {
        Some(c) => c.closed@,
        None => Seq::empty(),
    }
}

/// What comes of a `Create` cell under a given fresh key, or where none could be made: the state
/// after it, and the answer. There is an answer where the key has a public key and agrees with the
/// sender's.
pub open spec fn create_result(
    before: ManagerView,
    id: CircuitId,
    conn: ConnectionId,
    payload: Seq<u8>,
    key: Option<EphemeralPrivateKey>,
) -> (ManagerView, Option<Seq<u8>>) {
    match key {
        Some(k) => match (crypto::ephemeral_public(k), crypto::agreed_key(k, payload)) {
            (Some(public), Some(secret)) => (
                before.with_circuit(created_circuit(id, conn, secret)),
                Some(created_packet(id, public)),
            ),
            _ => (before, None),
        },
        None => (before, None),
    }
}

/// Whether a handshake with a fresh key and the payload of a `Create` cell is sound: the payload has
/// the length of a public key, and its owner reaches the same circuit key.
pub open spec fn is_sound(payload: Seq<u8>, key: Option<EphemeralPrivateKey>) -> bool {
    key matches Some(k) && payload.len() == 32 && crypto::is_mutual(k, payload)
}

/// What may come of a `Create` cell: what some fresh key leads to.
pub open spec fn creates(
    before: ManagerView,
    id: CircuitId,
    conn: ConnectionId,
    payload: Seq<u8>,
    after: ManagerView,
    answer: Option<Seq<u8>>,
) -> bool {
    exists|key: Option<EphemeralPrivateKey>|
        #[trigger] create_result(before, id, conn, payload, key) == (after, answer) && (answer is Some
            ==> is_sound(payload, key)) && (key matches Some(k) ==> crypto::has_x25519_length(k))
}

/// Whether these are the connections that are closed for a `Create` cell with this answer.
pub open spec fn create_closes(
    before: ManagerView,
    id: CircuitId,
    answer: Option<Seq<u8>>,
    closed: Seq<ConnectionId>,
) -> bool {
    if answer is Some {
        left_behind(before, id, closed)
    } else {
        closed == Seq::<ConnectionId>::empty()
    }
}

/// Takes a cell with the command `Create`, with the fresh key that was made for it, if one was:
/// agrees with the sender's key, and answers with its own public key.
pub fn create_with(
    manager: &mut CircuitManager,
    id: CircuitId,
    conn: ConnectionId,
    payload: &[u8],
    key: Option<EphemeralPrivateKey>,
) -> (r: Option<Created>)
    ensures
        (final(manager)@, created_view(r)) == create_result(old(manager)@, id, conn, payload@, key),
        r is Some ==> is_sound(payload@, key),
        create_closes(old(manager)@, id, created_view(r), closed_view(r)),
{
    let key = key?;
    let public = crypto::compute_public(&key)?;
    let secret = crypto::agree(key, payload)?;
    assert(crypto::agreed_key(key, payload@) == Some(secret@));
    assert(crypto::is_mutual(key, payload@));
    Some(accept_create(manager, id, conn, public, secret))
}

/// Takes a cell with the command `Create`: makes a fresh key, agrees with the sender's, and answers
/// with its own public key. Returns nothing where the handshake fails. Whether a key can be made is
/// left to the random source of the system.
pub fn handle_create_cell(
    manager: &mut CircuitManager,
    id: CircuitId,
    conn: ConnectionId,
    payload: &[u8],
) -> (r: Option<Created>)
    ensures
        creates(
            old(manager)@,
            id,
            conn,
            payload@,
            final(manager)@,
            created_view(r),
        ),
        create_closes(old(manager)@, id, created_view(r), closed_view(r)),
{
    let key = crypto::generate_ephemeral();
    create_with(manager, id, conn, payload, key)
}

/// Takes a gossip update: the descriptors are offered to the directory, and the answer is all that
/// the directory then knows.
pub fn handle_gossip(
    directory: &mut Directory,
    list: Vec<crate::descriptor::RelayDescriptor>,
) -> (r: Vec<u8>)
    ensures
        final(directory)@.relays == directory::with_relays(
            old(directory)@.relays,
            wire::relay_views(list@),
        ),
        final(directory)@.services == old(directory)@.services,
        exists|answer: Seq<crate::descriptor::RelayView>| #[trigger]
            directory::lists_relays(answer, final(directory)@.relays) && r@
                == wire::message_packet(MessageView::Gossip(answer)),
{
    directory.add_relays(list);
    gossip::update_packet(directory)
}

/// What may come of a packet.
pub open spec fn handles(
    conn: ConnectionId,
    payload: Seq<u8>,
    m0: ManagerView,
    d0: directory::DirectoryView,
    m1: ManagerView,
    d1: directory::DirectoryView,
    step: StepView,
) -> bool {
    match wire::get_message(payload) {
        None => m1 == m0 && d1 == d0 && step == idle(),
        Some(MessageView::Gossip(list)) => m1 == m0 && d1.services == d0.services && d1.relays
            == directory::with_relays(d0.relays, list) && exists|
            answer: Seq<crate::descriptor::RelayView>,
        | #[trigger]
            directory::lists_relays(answer, d1.relays) && step == one(
                ActionView::Send {
                    conn,
                    packet: wire::message_packet(MessageView::Gossip(answer)),
                },
            ),
        Some(MessageView::TorCell(cell)) => d1 == d0 && match cell.command {
            CellCommand::Relay => (m1, step) == relay_step(m0, cell.circ_id, conn, cell.payload),
            CellCommand::Create => exists|answer: Option<Seq<u8>>, closed: Seq<ConnectionId>|
                #[trigger] creates(m0, cell.circ_id, conn, cell.payload, m1, answer)
                    && #[trigger] create_closes(m0, cell.circ_id, answer, closed) && step
                    == answered(conn, answer, closed),
            _ => m1 == m0 && step == idle(),
        },
    }
}

pub open spec fn close_all(closed: Seq<ConnectionId>) -> Seq<ActionView> {
    closed.map_values(|conn: ConnectionId| ActionView::Close { conn })
}

/// What a `Create` cell comes to: connections that are left behind are closed, and the answer is sent.
pub open spec fn answered(
    conn: ConnectionId,
    answer: Option<Seq<u8>>,
    closed: Seq<ConnectionId>,
) -> StepView {
    match answer {
        Some(packet) => StepView {
            actions: close_all(closed).push(ActionView::Send { conn, packet }),
            end: Ending::Continue,
        },
        None => idle(),
    }
}

fn create_step(conn: ConnectionId, created: Option<Created>) -> (r: Step)
    ensures
        r@ == answered(conn, created_view(created), closed_view(created)),
{
    let mut actions = no_actions();
    match created {
        Some(created) => {
            let n: usize = created.closed.len();
            let mut i: usize = 0;
            assert(action_views(actions@) =~= close_all(created.closed@.take(0)));
            while i < n
                invariant
                    n == created.closed@.len(),
                    i <= n,
                    action_views(actions@) == close_all(created.closed@.take(i as int)),
                decreases n - i,
            {
                act(&mut actions, Action::Close { conn: created.closed[i] });
                i = i + 1;
                assert(action_views(actions@) =~= close_all(created.closed@.take(i as int)));
            }
            assert(created.closed@.take(n as int) =~= created.closed@);
            act(&mut actions, Action::Send { conn, packet: created.packet });
        },
        None => {},
    }
    Step { actions, end: Ending::Continue }
}

/// Takes the payload of a packet that arrived on a connection.
pub fn handle_packet(
    manager: &mut CircuitManager,
    directory: &mut Directory,
    conn: ConnectionId,
    payload: &[u8],
) -> (r: Step)
    ensures
        handles(
            conn,
            payload@,
            old(manager)@,
            old(directory)@,
            final(manager)@,
            final(directory)@,
            r@,
        ),
{
    match Message::decode(payload) {
        None => Step { actions: no_actions(), end: Ending::Continue },
        Some(Message::Gossip(GossipMessage::Update(list))) => {
            let packet = handle_gossip(directory, list);
            let mut actions = no_actions();
            act(&mut actions, Action::Send { conn, packet });
            assert(action_views(actions@) =~= one(
                ActionView::Send { conn, packet: packet@ },
            ).actions);
            Step { actions, end: Ending::Continue }
        },
        Some(Message::TorCell(cell)) => match cell.command {
            CellCommand::Relay => handle_relay_cell(manager, cell.circ_id, conn, cell.payload),
            CellCommand::Create => {
                let answer = handle_create_cell(
                    manager,
                    cell.circ_id,
                    conn,
                    cell.payload.as_slice(),
                );
                proof {
                    let seen = created_view(answer);
                    let closed = closed_view(answer);
                    assert(creates(
                        old(manager)@,
                        cell@.circ_id,
                        conn,
                        cell@.payload,
                        manager@,
                        seen,
                    ));
                    assert(create_closes(old(manager)@, cell@.circ_id, seen, closed));
                }
                create_step(conn, answer)
            },
            _ => Step { actions: no_actions(), end: Ending::Continue },
        },
    }
}

/// The connection to a next hop that a new one takes the place of.
pub open spec fn replaced_hop(c: CircuitView, next: ConnectionId) -> Seq<ActionView> {
    match c.next_hop_stream {
        Some(former) if former != next => seq![ActionView::Close { conn: former }],
        _ => Seq::empty(),
    }
}

/// What comes of the answer of a hop that a circuit was extended to: where the hop made its circuit,
/// the two are joined, and the hop's answer goes back as `Extended`. A hop that did not is given up.
pub open spec fn extend_answered_step(
    m: ManagerView,
    id: CircuitId,
    conn: ConnectionId,
    addr: SocketAddr,
    next: ConnectionId,
    payload: Seq<u8>,
) -> (ManagerView, StepView) {
    match wire::get_message(payload) {
        Some(MessageView::TorCell(cell)) => if m.circuits.dom().contains(id) && cell.command
            == CellCommand::Created {
            let (after, step) = reply_step(
                CircuitView {
                    next_hop: Some(addr),
                    next_hop_stream: Some(next),
                    ..m.circuits[id]
                },
                conn,
                circuit::plain_relay_cell(0, RelayCommand::Extended, cell.payload),
                replaced_hop(m.circuits[id], next),
            );
            (m.with_circuit(after), step)
        } else {
            (m, one(ActionView::Close { conn: next }))
        },
        _ => (m, one(ActionView::Close { conn: next })),
    }
}

fn close_one(conn: ConnectionId) -> (r: Step)
    ensures
        r@ == one(ActionView::Close { conn }),
{
    let mut actions = no_actions();
    act(&mut actions, Action::Close { conn });
    assert(action_views(actions@) =~= one(ActionView::Close { conn }).actions);
    Step { actions, end: Ending::Continue }
}

/// Takes the payload that a dialed hop answered. A hop that cannot be dialed, or does not answer,
/// has no such step: nothing is sent.
pub fn extend_answered(
    manager: &mut CircuitManager,
    id: CircuitId,
    conn: ConnectionId,
    addr: SocketAddr,
    next: ConnectionId,
    payload: &[u8],
) -> (r: Step)
    ensures
        (final(manager)@, r@) == extend_answered_step(
            old(manager)@,
            id,
            conn,
            addr,
            next,
            payload@,
        ),
{
    let data = match Message::decode(payload) {
        Some(Message::TorCell(cell)) => {
            if cell.command != CellCommand::Created {
                return close_one(next);
            }
            cell.payload
        },
        _ => {
            return close_one(next);
        },
    };
    let mut actions = no_actions();
    match manager.take_circuit(id) {
        Some(c) => {
            let mut c = c;
            match c.next_hop_stream {
                Some(former) => {
                    if former != next {
                        act(&mut actions, Action::Close { conn: former });
                    }
                },
                None => {},
            }
            assert(action_views(actions@) =~= replaced_hop(c@, next));
            c.next_hop = Some(addr);
            c.next_hop_stream = Some(next);
            let cell = RelayCell::plain(0, RelayCommand::Extended, data);
            let end = reply(&mut c, conn, &cell, &mut actions);
            proof {
                lemma_put_back(old(manager)@, id, c@);
            }
            manager.add_circuit(c);
            Step { actions, end }
        },
        None => {
            assert(manager@.circuits =~= old(manager)@.circuits);
            close_one(next)
        },
    }
}

/// The first IPv4 address of a list, with its port.
pub open spec fn first_ipv4(list: Seq<SocketAddr>) -> Option<(Ipv4Addr, u16)>
    decreases list.len(),
{
    if list.len() == 0 {
        None
    } else {
        match list[0] {
            SocketAddr::V4 { ip, port } => Some((ip, port)),
            _ => first_ipv4(list.drop_first()),
        }
    }
}

/// Whether this relay dials a destination that resolved to these addresses, or did not resolve.
pub open spec fn exit_allowed(
    rules: Seq<exit_policy::ExitRule>,
    resolved: Option<Seq<SocketAddr>>,
) -> bool {
    match resolved {
        None => false,
        Some(list) => match first_ipv4(list) {
            None => false,
            Some((ip, port)) => exit_policy::verdict(rules, ip, port) == PolicyAction::Accept,
        },
    }
}

fn find_ipv4(list: &[SocketAddr]) -> (r: Option<(Ipv4Addr, u16)>)
    ensures
        r == first_ipv4(list@),
{
    let n: usize = list.len();
    let mut i: usize = 0;
    assert(list@.skip(0) =~= list@);
    while i < n
        invariant
            n == list@.len(),
            i <= n,
            first_ipv4(list@) == first_ipv4(list@.skip(i as int)),
        decreases n - i,
    {
        assert(list@.skip(i as int)[0] == list@[i as int]);
        assert(list@.skip(i as int).drop_first() =~= list@.skip(i + 1));
        match list[i] {
            SocketAddr::V4 { ip, port } => {
                return Some((ip, port));
            },
            _ => {},
        }
        i = i + 1;
    }
    None
}

pub open spec fn resolved_view(resolved: Option<&[SocketAddr]>) -> Option<Seq<SocketAddr>> {
    match resolved {
        Some(list) => Some(list@),
        None => None,
    }
}

/// The address that is dialed for a destination: its first IPv4 address, if the policy accepts it.
pub open spec fn exit_address(
    rules: Seq<exit_policy::ExitRule>,
    resolved: Option<Seq<SocketAddr>>,
) -> Option<SocketAddr> {
    if exit_allowed(rules, resolved) {
        let (ip, port) = first_ipv4(resolved.unwrap()).unwrap();
        Some(SocketAddr::V4 { ip, port })
    } else {
        None
    }
}

/// Decides whether a resolved destination is dialed, and at which of its addresses.
pub fn choose_exit(policy: &ExitPolicy, resolved: Option<&[SocketAddr]>) -> (r: Option<SocketAddr>)
    ensures
        r == exit_address(policy@, resolved_view(resolved)),
{
    match resolved {
        None => None,
        Some(list) => match find_ipv4(list) {
            None => None,
            Some((ip, port)) => {
                if policy.is_allowed(ip, port) {
                    Some(SocketAddr::V4 { ip, port })
                } else {
                    None
                }
            },
        },
    }
}

/// What to do with a resolved destination.
#[derive(Debug)]
pub enum BeginVerdict {
    /// Dial this address and no other, and hand the connection to `begin_dialed`.
    Dial(SocketAddr),
    /// The policy rejects it, and the client is told.
    Refused(Step),
}

/// The answer that a stream ends, and why.
pub open spec fn end_cell(stream_id: u16, reason: Seq<char>) -> RelayCellView {
    circuit::plain_relay_cell(stream_id, RelayCommand::End, vstd::utf8::encode_utf8(reason))
}

/// Tells the client of a circuit something, if the circuit is still there.
pub open spec fn tell_step(
    m: ManagerView,
    id: CircuitId,
    conn: ConnectionId,
    cell: RelayCellView,
) -> (ManagerView, StepView) {
    if m.circuits.dom().contains(id) {
        answer_step(m, id, conn, cell)
    } else {
        (m, idle())
    }
}

fn tell(manager: &mut CircuitManager, id: CircuitId, conn: ConnectionId, cell: &RelayCell) -> (r:
    Step)
    ensures
        (final(manager)@, r@) == tell_step(old(manager)@, id, conn, cell@),
{
    let mut actions = no_actions();
    let known = manager.get_circuit(id).is_some();
    if !known {
        return Step { actions, end: Ending::Continue };
    }
    let end = answer(manager, id, conn, cell, &mut actions);
    Step { actions, end }
}

fn text_bytes(s: &str) -> (r: Vec<u8>)
    ensures
        r@ == vstd::utf8::encode_utf8(s@),
{
    vstd::slice::slice_to_vec(s.as_bytes())
}

/// Takes the addresses that a destination resolved to. The policy decides before anything is dialed.
pub fn begin_resolved(
    manager: &mut CircuitManager,
    policy: &ExitPolicy,
    id: CircuitId,
    conn: ConnectionId,
    stream_id: u16,
    resolved: Option<&[SocketAddr]>,
) -> (r: BeginVerdict)
    ensures
        match r {
            BeginVerdict::Dial(addr) => exit_address(policy@, resolved_view(resolved)) == Some(addr)
                && final(manager)@ == old(manager)@,
            BeginVerdict::Refused(step) => exit_address(policy@, resolved_view(resolved)) is None
                && (final(manager)@, step@) == tell_step(
                old(manager)@,
                id,
                conn,
                end_cell(stream_id, "exit policy rejected"@),
            ),
        },
{
    match choose_exit(policy, resolved) {
        Some(addr) => {
            return BeginVerdict::Dial(addr);
        },
        None => {},
    }
    let reason = text_bytes("exit policy rejected");
    let cell = RelayCell::plain(stream_id, RelayCommand::End, reason);
    BeginVerdict::Refused(tell(manager, id, conn, &cell))
}

/// What comes of dialing a destination: a new stream and `Connected`, or `End`. A stream that had
/// the same number is closed, and so is the connection where the circuit is gone.
pub open spec fn begin_dialed_step(
    m: ManagerView,
    id: CircuitId,
    conn: ConnectionId,
    stream_id: u16,
    dialed: Option<ConnectionId>,
) -> (ManagerView, StepView) {
    if !m.circuits.dom().contains(id) {
        (
            m,
            match dialed {
                None => idle(),
                Some(tcp_stream) => one(ActionView::Close { conn: tcp_stream }),
            },
        )
    } else {
        match dialed {
            None => tell_step(m, id, conn, end_cell(stream_id, "connect failed"@)),
            Some(tcp_stream) => {
                let c = m.circuits[id];
                let stream = Stream {
                    stream_id,
                    tcp_stream,
                    package_window: circuit::STREAM_WINDOW_START,
                    deliver_window: circuit::STREAM_WINDOW_START,
                };
                let closed = if c.streams.dom().contains(stream_id) {
                    seq![ActionView::Close { conn: c.streams[stream_id].tcp_stream }]
                } else {
                    Seq::empty()
                };
                let (after, step) = reply_step(
                    CircuitView { streams: c.streams.insert(stream_id, stream), ..c },
                    conn,
                    circuit::plain_relay_cell(stream_id, RelayCommand::Connected, Seq::empty()),
                    closed,
                );
                (m.with_circuit(after), step)
            },
        }
    }
}

/// Takes the connection to a destination, or that there is none.
pub fn begin_dialed(
    manager: &mut CircuitManager,
    id: CircuitId,
    conn: ConnectionId,
    stream_id: u16,
    dialed: Option<ConnectionId>,
) -> (r: Step)
    ensures
        (final(manager)@, r@) == begin_dialed_step(old(manager)@, id, conn, stream_id, dialed),
{
    match dialed {
        None => {
            let reason = text_bytes("connect failed");
            let cell = RelayCell::plain(stream_id, RelayCommand::End, reason);
            tell(manager, id, conn, &cell)
        },
        Some(tcp_stream) => {
            let mut actions = no_actions();
            match manager.take_circuit(id) {
                None => {
                    assert(manager@.circuits =~= old(manager)@.circuits);
                    close_one(tcp_stream)
                },
                Some(c) => {
                    let mut c = c;
                    let stream = Stream {
                        stream_id,
                        tcp_stream,
                        package_window: circuit::STREAM_WINDOW_START,
                        deliver_window: circuit::STREAM_WINDOW_START,
                    };
                    on_end(&mut c, stream_id, &mut actions);
                    c.streams.insert(stream_id, stream);
                    let ghost c0 = old(manager)@.circuits[id];
                    assert(c.streams@ =~= c0.streams.insert(stream_id, stream));
                    let cell = RelayCell::plain(stream_id, RelayCommand::Connected, no_data());
                    let end = reply(&mut c, conn, &cell, &mut actions);
                    proof {
                        lemma_put_back(old(manager)@, id, c@);
                    }
                    manager.add_circuit(c);
                    Step { actions, end }
                },
            }
        },
    }
}

/// What becomes of data that was read from an exit connection.
#[derive(Debug)]
pub enum ExitRead {
    /// The step sends it towards the client.
    Send(Step),
    /// It has to wait: a window is closed until a `SendMe` comes.
    Wait,
    /// The stream is no longer there.
    Gone,
}

/// An `ExitRead` as a mathematical value.
pub ghost enum ExitReadView {
    Send(StepView),
    Wait,
    Gone,
}

impl View for ExitRead {
    type V = ExitReadView;

    open spec fn view(&self) -> ExitReadView {
        match self {
            ExitRead::Send(step) => ExitReadView::Send(step@),
            ExitRead::Wait => ExitReadView::Wait,
            ExitRead::Gone => ExitReadView::Gone,
        }
    }
}

/// Whether a stream of a circuit has this connection.
pub open spec fn has_stream(
    m: ManagerView,
    id: CircuitId,
    stream_id: u16,
    tcp_stream: ConnectionId,
) -> bool {
    &&& m.circuits.dom().contains(id)
    &&& m.circuits[id].streams.dom().contains(stream_id)
    &&& m.circuits[id].streams[stream_id].tcp_stream == tcp_stream
    &&& m.circuits[id].prev_hop_stream is Some
}

/// A circuit after a cell of data was packaged on one of its streams: both windows count it.
pub open spec fn packaged(c: CircuitView, stream_id: u16) -> CircuitView {
    let s = c.streams[stream_id];
    CircuitView {
        package_window: (c.package_window - 1) as u16,
        streams: c.streams.insert(
            stream_id,
            Stream { package_window: (s.package_window - 1) as u16, ..s },
        ),
        ..c
    }
}

/// Data from an exit connection goes back in a `Data` cell. Nothing goes out through a closed window.
pub open spec fn exit_data_step(
    m: ManagerView,
    id: CircuitId,
    stream_id: u16,
    tcp_stream: ConnectionId,
    data: Seq<u8>,
) -> (ManagerView, ExitReadView) {
    let c = m.circuits[id];
    if !has_stream(m, id, stream_id, tcp_stream) {
        (m, ExitReadView::Gone)
    } else if c.package_window == 0 || c.streams[stream_id].package_window == 0 {
        (m, ExitReadView::Wait)
    } else {
        let (after, step) = reply_step(
            packaged(c, stream_id),
            c.prev_hop_stream.unwrap(),
            circuit::plain_relay_cell(stream_id, RelayCommand::Data, data),
            Seq::empty(),
        );
        (m.with_circuit(after), ExitReadView::Send(step))
    }
}

/// Takes data that was read from the connection of an exit stream.
pub fn exit_data(
    manager: &mut CircuitManager,
    id: CircuitId,
    stream_id: u16,
    tcp_stream: ConnectionId,
    data: &[u8],
) -> (r: ExitRead)
    ensures
        (final(manager)@, r@) == exit_data_step(old(manager)@, id, stream_id, tcp_stream, data@),
{
    let (conn, s): (ConnectionId, Stream) = match find_stream(manager, id, stream_id, tcp_stream) {
        Some(found) => found,
        None => {
            return ExitRead::Gone;
        },
    };
    match manager.take_circuit(id) {
        Some(c) => {
            let mut c = c;
            if c.package_window == 0 || s.package_window == 0 {
                proof {
                    lemma_put_back(old(manager)@, id, c@);
                    lemma_unchanged(old(manager)@, id);
                }
                manager.add_circuit(c);
                return ExitRead::Wait;
            }
            c.package_window = c.package_window - 1;
            c.streams.insert(
                stream_id,
                Stream {
                    stream_id: s.stream_id,
                    tcp_stream: s.tcp_stream,
                    package_window: s.package_window - 1,
                    deliver_window: s.deliver_window,
                },
            );
            let mut actions = no_actions();
            let cell = RelayCell::plain(
                stream_id,
                RelayCommand::Data,
                vstd::slice::slice_to_vec(data),
            );
            let end = reply(&mut c, conn, &cell, &mut actions);
            proof {
                lemma_put_back(old(manager)@, id, c@);
            }
            manager.add_circuit(c);
            ExitRead::Send(Step { actions, end })
        },
        None => ExitRead::Gone,
    }
}

fn find_stream(
    manager: &CircuitManager,
    id: CircuitId,
    stream_id: u16,
    tcp_stream: ConnectionId,
) -> (r: Option<(ConnectionId, Stream)>)
    ensures
        match r {
            Some((conn, s)) => has_stream(manager@, id, stream_id, tcp_stream)
                && manager@.circuits[id].prev_hop_stream == Some(conn)
                && manager@.circuits[id].streams[stream_id] == s,
            None => !has_stream(manager@, id, stream_id, tcp_stream),
        },
{
    match manager.get_circuit(id) {
        None => None,
        Some(c) => match (c.prev_hop_stream, c.streams.get(&stream_id)) {
            (Some(conn), Some(s)) => {
                if s.tcp_stream == tcp_stream {
                    Some((conn, *s))
                } else {
                    None
                }
            },
            _ => None,
        },
    }
}

/// An exit connection that has ended: the stream is closed, and the client is told with `End`.
pub open spec fn exit_closed_step(
    m: ManagerView,
    id: CircuitId,
    stream_id: u16,
    tcp_stream: ConnectionId,
) -> (ManagerView, StepView) {
    let c = m.circuits[id];
    if !has_stream(m, id, stream_id, tcp_stream) {
        (m, idle())
    } else {
        let (closed, step) = end_step(c, stream_id);
        let (after, told) = reply_step(
            closed,
            c.prev_hop_stream.unwrap(),
            circuit::plain_relay_cell(stream_id, RelayCommand::End, Seq::empty()),
            step.actions,
        );
        (m.with_circuit(after), told)
    }
}

/// Takes that the connection of an exit stream has ended.
pub fn exit_closed(
    manager: &mut CircuitManager,
    id: CircuitId,
    stream_id: u16,
    tcp_stream: ConnectionId,
) -> (r: Step)
    ensures
        (final(manager)@, r@) == exit_closed_step(old(manager)@, id, stream_id, tcp_stream),
{
    let mut actions = no_actions();
    let (conn, _): (ConnectionId, Stream) = match find_stream(manager, id, stream_id, tcp_stream) {
        Some(found) => found,
        None => {
            return Step { actions, end: Ending::Continue };
        },
    };
    match manager.take_circuit(id) {
        Some(c) => {
            let mut c = c;
            on_end(&mut c, stream_id, &mut actions);
            let cell = RelayCell::plain(stream_id, RelayCommand::End, no_data());
            let end = reply(&mut c, conn, &cell, &mut actions);
            proof {
                lemma_put_back(old(manager)@, id, c@);
            }
            manager.add_circuit(c);
            Step { actions, end }
        },
        None => Step { actions, end: Ending::Continue },
    }
}

} // verus!
