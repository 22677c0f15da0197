//! What each command comes to at a relay: for the stream and the circuit that it names, and for the
//! others.

use crate::addr::SocketAddr;
use crate::bytes;
use crate::circuit;
use crate::circuit::{CircuitManager, CircuitView, ConnectionId, ManagerView};
use crate::crypto;
use crate::directory::Directory;
use crate::exit_policy;
use crate::exit_policy::ExitPolicy;
use crate::identity;
use crate::relay;
use crate::relay::{ActionView, BeginVerdict, Created, Ending, ExitReadView, Step};
use crate::wire;
use crate::wire::{CellCommand, CircuitId, MessageView, RelayCellView, RelayCommand};
use ring::agreement::EphemeralPrivateKey;
use vstd::prelude::*;

verus! {

/// Whether actions send one cell back along a circuit, under its backward cipher, behind the actions
/// that came before.
pub open spec fn replies_with(
    actions: Seq<ActionView>,
    before: Seq<ActionView>,
    conn: ConnectionId,
    c: CircuitView,
    cell: RelayCellView,
) -> bool {
    actions == before.push(
        ActionView::Send {
            conn,
            packet: circuit::sealed_packet(c.id, c.backward_cipher, cell),
        },
    )
}

/// Data is written to the connection of the stream that the cell names, whole, and to no other; no
/// other stream of the circuit changes. Data for a stream that is not there is written nowhere.
pub proof fn law_data_goes_to_its_stream(c: CircuitView, conn: ConnectionId, rc: RelayCellView)
    requires
        relay::data_step(c, conn, rc).1.end == Ending::Continue,
    ensures
        ({
            let (after, step) = relay::data_step(c, conn, rc);
            &&& forall|i: int|
                0 <= i < step.actions.len() ==> match #[trigger] step.actions[i] {
                    ActionView::Write { conn: to, data } => c.streams.dom().contains(rc.stream_id)
                        && to == c.streams[rc.stream_id].tcp_stream && data == rc.data,
                    ActionView::Send { conn: to, .. } => to == conn,
                    _ => false,
                }
            &&& c.streams.dom().contains(rc.stream_id) ==> exists|i: int|
                0 <= i < step.actions.len() && #[trigger] step.actions[i] == ActionView::Write {
                    conn: c.streams[rc.stream_id].tcp_stream,
                    data: rc.data,
                }
            &&& step.actions.len() <= 3
            &&& forall|k: u16|
                k != rc.stream_id ==> after.streams.dom().contains(k) == #[trigger] c.streams.dom().contains(
                    k,
                ) && after.streams[k] == c.streams[k]
            &&& after.streams.dom().contains(rc.stream_id) == c.streams.dom().contains(rc.stream_id)
            &&& after.package_window == c.package_window
            &&& after.next_hop_stream == c.next_hop_stream
            &&& after.prev_hop_stream == c.prev_hop_stream
            &&& after.linked_circuit_id == c.linked_circuit_id
            &&& after.forward_cipher == c.forward_cipher
        }),
{
    let (mid, first) = relay::circuit_window_step(c, conn);
    let (after, step) = relay::data_step(c, conn, rc);
    if c.streams.dom().contains(rc.stream_id) {
        let write = ActionView::Write {
            conn: c.streams[rc.stream_id].tcp_stream,
            data: rc.data,
        };
        assert(step.actions[first.actions.len() as int] == write);
    }
}

/// An acknowledgement opens the window that it names by its increment, of the circuit by 100 and of a
/// stream by 50, and changes nothing else.
pub proof fn law_acknowledgements_open_one_window(c: CircuitView, stream_id: u16)
    requires
        relay::sendme_step(c, stream_id).1.end == Ending::Continue,
    ensures
        ({
            let (after, step) = relay::sendme_step(c, stream_id);
            &&& step.actions == Seq::<ActionView>::empty()
            &&& after.package_window == c.package_window + if stream_id == 0 {
                100int
            } else {
                0int
            }
            &&& after.deliver_window == c.deliver_window
            &&& forall|k: u16|
                after.streams.dom().contains(k) == #[trigger] c.streams.dom().contains(k)
            &&& forall|k: u16| #[trigger]
                c.streams.dom().contains(k) ==> after.streams[k].tcp_stream
                    == c.streams[k].tcp_stream && after.streams[k].deliver_window
                    == c.streams[k].deliver_window && after.streams[k].package_window
                    == c.streams[k].package_window + if stream_id != 0 && k == stream_id {
                    50int
                } else {
                    0int
                }
        }),
{
}

/// The end of a stream closes its connection and takes it off the circuit; the others stay.
pub proof fn law_end_closes_one_stream(c: CircuitView, stream_id: u16)
    ensures
        ({
            let (after, step) = relay::end_step(c, stream_id);
            &&& step.end == Ending::Continue
            &&& !after.streams.dom().contains(stream_id)
            &&& forall|k: u16|
                k != stream_id ==> after.streams.dom().contains(k) == #[trigger] c.streams.dom().contains(
                    k,
                ) && after.streams[k] == c.streams[k]
            &&& c.streams.dom().contains(stream_id) ==> step.actions == seq![
                ActionView::Close { conn: c.streams[stream_id].tcp_stream },
            ]
            &&& !c.streams.dom().contains(stream_id) ==> step.actions == Seq::<ActionView>::empty()
            &&& after.package_window == c.package_window
            &&& after.deliver_window == c.deliver_window
        }),
{
}

/// A destination that was dialed becomes a stream under the number that the client gave it, with full
/// windows, and the client is told on that number; the other streams stay. A destination that could
/// not be dialed leaves the streams as they are, and the client is told that the stream has ended.
pub proof fn law_dialed_destinations_become_streams(
    m: ManagerView,
    id: CircuitId,
    conn: ConnectionId,
    stream_id: u16,
    tcp: ConnectionId,
    connected: RelayCellView,
    ended: RelayCellView,
)
    requires
        m.circuits.dom().contains(id),
        m.circuits[id].id == id,
        connected.stream_id == stream_id,
        connected.recognized == 0,
        connected.digest == 0,
        connected.command == RelayCommand::Connected,
        connected.data.len() == 0,
        ended.stream_id == stream_id,
        ended.recognized == 0,
        ended.digest == 0,
        ended.command == RelayCommand::End,
        ended.data == vstd::utf8::encode_utf8("connect failed"@),
        circuit::can_seal(m.circuits[id].backward_cipher, connected),
        circuit::can_seal(m.circuits[id].backward_cipher, ended),
    ensures
        ({
            let c = m.circuits[id];
            let (after, step) = relay::begin_dialed_step(m, id, conn, stream_id, Some(tcp));
            let d = after.circuits[id];
            &&& step.end == Ending::Continue
            &&& d.streams.dom().contains(stream_id)
            &&& d.streams[stream_id].tcp_stream == tcp
            &&& d.streams[stream_id].package_window == 500
            &&& d.streams[stream_id].deliver_window == 500
            &&& forall|k: u16|
                k != stream_id ==> d.streams.dom().contains(k) == #[trigger] c.streams.dom().contains(k)
                    && d.streams[k] == c.streams[k]
            &&& !c.streams.dom().contains(stream_id) ==> replies_with(
                step.actions,
                Seq::empty(),
                conn,
                c,
                connected,
            )
            &&& c.streams.dom().contains(stream_id) ==> replies_with(
                step.actions,
                seq![ActionView::Close { conn: c.streams[stream_id].tcp_stream }],
                conn,
                c,
                connected,
            )
        }),
        ({
            let c = m.circuits[id];
            let (after, step) = relay::begin_dialed_step(m, id, conn, stream_id, None);
            &&& after.circuits[id].streams == c.streams
            &&& replies_with(step.actions, Seq::empty(), conn, c, ended)
        }),
{
    assert(connected.data =~= Seq::empty());
    assert(connected == circuit::plain_relay_cell(
        stream_id,
        RelayCommand::Connected,
        Seq::empty(),
    ));
    assert(ended == relay::end_cell(stream_id, "connect failed"@));
}

/// The policy decides before anything is dialed: either the address to dial is the first IPv4 address
/// of the destination, which the policy accepts, or the client is told, on its stream, that the policy
/// has rejected it.
pub proof fn law_the_policy_decides_first(
    manager: &mut CircuitManager,
    policy: &ExitPolicy,
    id: CircuitId,
    conn: ConnectionId,
    stream_id: u16,
    list: &[SocketAddr],
    r: BeginVerdict,
    ended: RelayCellView,
)
    requires
        call_ensures(
            relay::begin_resolved,
            (manager, policy, id, conn, stream_id, Some(list)),
            r,
        ),
        ended.stream_id == stream_id,
        ended.recognized == 0,
        ended.digest == 0,
        ended.command == RelayCommand::End,
        ended.data == vstd::utf8::encode_utf8("exit policy rejected"@),
    ensures
        match r {
            BeginVerdict::Dial(addr) => {
                &&& exists|i: int|
                    0 <= i < list@.len() && #[trigger] list@[i] == addr && forall|j: int|
                        0 <= j < i ==> (#[trigger] list@[j]) is V6
                &&& addr matches SocketAddr::V4 { ip, port } && exit_policy::verdict(
                    policy@,
                    ip,
                    port,
                ) == exit_policy::PolicyAction::Accept
                &&& final(manager)@ == old(manager)@
            },
            BeginVerdict::Refused(step) => {
                &&& forall|i: int|
                    0 <= i < list@.len() && (forall|j: int|
                        0 <= j < i ==> (#[trigger] list@[j]) is V6) ==> match #[trigger] list@[i] {
                        SocketAddr::V4 { ip, port } => exit_policy::verdict(policy@, ip, port)
                            == exit_policy::PolicyAction::Reject,
                        SocketAddr::V6 { .. } => true,
                    }
                &&& old(manager)@.circuits.dom().contains(id) && step@.end == Ending::Continue
                    ==> replies_with(
                    step@.actions,
                    Seq::empty(),
                    conn,
                    old(manager)@.circuits[id],
                    ended,
                )
                &&& !old(manager)@.circuits.dom().contains(id) ==> step@.actions == Seq::<
                    ActionView,
                >::empty()
            },
        },
{
    lemma_first_ipv4(list@);
    assert(ended == relay::end_cell(stream_id, "exit policy rejected"@));
    match relay::first_ipv4(list@) {
        Some((ip, port)) => {
            let i = choose|i: int|
                0 <= i < list@.len() && #[trigger] list@[i] == (SocketAddr::V4 { ip, port })
                    && forall|j: int| 0 <= j < i ==> (#[trigger] list@[j]) is V6;
            assert forall|k: int|
                0 <= k < list@.len() && (forall|j: int|
                    0 <= j < k ==> (#[trigger] list@[j]) is V6) implies match #[trigger] list@[k] {
                SocketAddr::V4 { ip: a, port: p } => a == ip && p == port,
                SocketAddr::V6 { .. } => true,
            } by {
                if k > i {
                    assert(list@[i] is V6);
                } else if k < i {
                    assert(list@[k] is V6);
                }
            }
        },
        None => {},
    }
}

proof fn lemma_first_ipv4(list: Seq<SocketAddr>)
    ensures
        match relay::first_ipv4(list) {
            Some((ip, port)) => exists|i: int|
                0 <= i < list.len() && #[trigger] list[i] == (SocketAddr::V4 { ip, port })
                    && forall|j: int| 0 <= j < i ==> (#[trigger] list[j]) is V6,
            None => forall|i: int| 0 <= i < list.len() ==> (#[trigger] list[i]) is V6,
        },
    decreases list.len(),
{
    if list.len() > 0 {
        match list[0] {
            SocketAddr::V4 { ip, port } => {
                assert(list[0] == (SocketAddr::V4 { ip, port }));
            },
            SocketAddr::V6 { .. } => {
                let rest = list.drop_first();
                lemma_first_ipv4(rest);
                match relay::first_ipv4(rest) {
                    Some((ip, port)) => {
                        let i = choose|i: int|
                            0 <= i < rest.len() && #[trigger] rest[i] == (SocketAddr::V4 {
                                ip,
                                port,
                            }) && forall|j: int| 0 <= j < i ==> (#[trigger] rest[j]) is V6;
                        assert(list[i + 1] == rest[i]);
                        assert forall|j: int| 0 <= j < i + 1 implies (#[trigger] list[j]) is V6 by {
                            if j > 0 {
                                assert(rest[j - 1] is V6);
                            }
                        }
                    },
                    None => {
                        assert forall|i: int| 0 <= i < list.len() implies (
                        #[trigger] list[i]) is V6 by {
                            if i > 0 {
                                assert(rest[i - 1] is V6);
                            }
                        }
                    },
                }
            },
        }
    }
}

/// Where a destination does not resolve, nothing is dialed.
pub proof fn law_unresolved_destinations_are_not_dialed(
    manager: &mut CircuitManager,
    policy: &ExitPolicy,
    id: CircuitId,
    conn: ConnectionId,
    stream_id: u16,
    r: BeginVerdict,
)
    requires
        call_ensures(
            relay::begin_resolved,
            (manager, policy, id, conn, stream_id, None::<&[SocketAddr]>),
            r,
        ),
    ensures
        r is Refused,
{
}

/// A service is registered by the first 32 bytes of what it sends, whatever follows them, and told so;
/// what is shorter, or no key, registers nothing.
pub proof fn law_services_register_by_their_key(
    m: ManagerView,
    id: CircuitId,
    conn: ConnectionId,
    key: Seq<u8>,
    rest: Seq<u8>,
    told: RelayCellView,
)
    requires
        m.circuits.dom().contains(id),
        m.circuits[id].linked_circuit_id is None,
        told.stream_id == 0,
        told.recognized == 0,
        told.digest == 0,
        told.command == RelayCommand::IntroEstablished,
        told.data.len() == 0,
        circuit::can_seal(m.circuits[id].backward_cipher, told),
    ensures
        ({
            let rc = circuit::plain_relay_cell(0, RelayCommand::EstablishIntro, key + rest);
            let (after, step) = relay::recognized_step(m, id, conn, rc);
            &&& identity::valid_key(key) ==> after.intro_points == m.intro_points.insert(key, id)
                && replies_with(step.actions, Seq::empty(), conn, m.circuits[id], told)
            &&& key.len() == 32 && !identity::valid_key(key) ==> after == m && step.actions == Seq::<
                ActionView,
            >::empty()
            &&& (key + rest).len() < 32 ==> after == m && step.actions == Seq::<ActionView>::empty()
            &&& after.rendezvous_points == m.rendezvous_points
        }),
{
    assert(told.data =~= Seq::empty());
    assert(told == circuit::plain_relay_cell(0, RelayCommand::IntroEstablished, Seq::empty()));
    if key.len() == 32 {
        assert((key + rest).take(32) =~= key);
    }
}

/// A client is registered by a cookie of twenty bytes, and told so; a cookie of any other length
/// registers nothing.
pub proof fn law_clients_register_by_their_cookie(
    m: ManagerView,
    id: CircuitId,
    conn: ConnectionId,
    cookie: Seq<u8>,
    told: RelayCellView,
)
    requires
        m.circuits.dom().contains(id),
        told.stream_id == 0,
        told.recognized == 0,
        told.digest == 0,
        told.command == RelayCommand::RendezvousEstablished,
        told.data.len() == 0,
        circuit::can_seal(m.circuits[id].backward_cipher, told),
    ensures
        ({
            let rc = circuit::plain_relay_cell(0, RelayCommand::EstablishRendezvous, cookie);
            let (after, step) = relay::recognized_step(m, id, conn, rc);
            &&& cookie.len() == 20 ==> after.rendezvous_points == m.rendezvous_points.insert(
                cookie,
                id,
            ) && replies_with(step.actions, Seq::empty(), conn, m.circuits[id], told)
            &&& cookie.len() != 20 ==> after == m && step.actions == Seq::<ActionView>::empty()
            &&& after.intro_points == m.intro_points
        }),
{
    assert(told.data =~= Seq::empty());
    assert(told == circuit::plain_relay_cell(0, RelayCommand::RendezvousEstablished, Seq::empty()));
}

/// An introduction goes, whole and unchanged, to the service whose key it begins with, on the circuit
/// that the service registered; for a service that is not registered it goes nowhere.
pub proof fn law_introductions_go_to_the_named_service(
    m: ManagerView,
    id: CircuitId,
    conn: ConnectionId,
    key: Seq<u8>,
    rest: Seq<u8>,
    service: CircuitId,
    to: ConnectionId,
    cell: RelayCellView,
)
    requires
        circuit::numbered(m),
        m.circuits.dom().contains(id),
        m.circuits[id].linked_circuit_id is None,
        identity::valid_key(key),
        m.circuits.dom().contains(service),
        m.circuits[service].prev_hop_stream == Some(to),
        cell.stream_id == 0,
        cell.recognized == 0,
        cell.digest == 0,
        cell.command == RelayCommand::Introduce2,
        cell.data == key + rest,
        circuit::can_seal(m.circuits[service].backward_cipher, cell),
    ensures
        ({
            let rc = circuit::plain_relay_cell(0, RelayCommand::Introduce1, key + rest);
            let (after, step) = relay::recognized_step(m, id, conn, rc);
            &&& m.intro_points.dom().contains(key) && m.intro_points[key] == service ==> replies_with(
                step.actions,
                Seq::empty(),
                to,
                m.circuits[service],
                cell,
            )
            &&& !m.intro_points.dom().contains(key) ==> after == m && step.actions == Seq::<
                ActionView,
            >::empty()
            &&& after.intro_points == m.intro_points
            &&& after.rendezvous_points == m.rendezvous_points
        }),
{
    assert((key + rest).take(32) =~= key);
    assert(cell == circuit::plain_relay_cell(0, RelayCommand::Introduce2, key + rest));
}

/// A service that comes with a cookie is linked with the client that left it, both ways, and what
/// follows the cookie goes to that client unchanged; with an unknown cookie nothing happens.
pub proof fn law_rendezvous_joins_by_cookie(
    m: ManagerView,
    id: CircuitId,
    conn: ConnectionId,
    cookie: Seq<u8>,
    tail: Seq<u8>,
    client: CircuitId,
    to: ConnectionId,
    cell: RelayCellView,
)
    requires
        circuit::numbered(m),
        m.circuits.dom().contains(id),
        cookie.len() == 20,
        client != id,
        m.circuits.dom().contains(client),
        m.circuits[client].prev_hop_stream == Some(to),
        cell.stream_id == 0,
        cell.recognized == 0,
        cell.digest == 0,
        cell.command == RelayCommand::Rendezvous2,
        cell.data == tail,
        circuit::can_seal(m.circuits[client].backward_cipher, cell),
    ensures
        ({
            let rc = circuit::plain_relay_cell(0, RelayCommand::Rendezvous1, cookie + tail);
            let (after, step) = relay::recognized_step(m, id, conn, rc);
            &&& m.rendezvous_points.dom().contains(cookie) && m.rendezvous_points[cookie] == client
                ==> after.circuits[id].linked_circuit_id == Some(client)
                && after.circuits[client].linked_circuit_id == Some(id) && replies_with(
                step.actions,
                Seq::empty(),
                to,
                m.circuits[client],
                cell,
            )
            &&& !m.rendezvous_points.dom().contains(cookie) ==> after == m && step.actions == Seq::<
                ActionView,
            >::empty()
        }),
{
    assert((cookie + tail).take(20) =~= cookie);
    assert((cookie + tail).skip(20) =~= tail);
    assert(cell == circuit::plain_relay_cell(0, RelayCommand::Rendezvous2, tail));
}

/// A relay acts on nine commands. Any other that comes to it, on a circuit that is not linked, changes
/// nothing and is not answered.
pub proof fn law_other_commands_do_nothing(
    m: ManagerView,
    id: CircuitId,
    conn: ConnectionId,
    rc: RelayCellView,
)
    requires
        m.circuits.dom().contains(id),
        m.circuits[id].linked_circuit_id is None,
        rc.command != RelayCommand::Extend,
        rc.command != RelayCommand::Begin,
        rc.command != RelayCommand::Data,
        rc.command != RelayCommand::SendMe,
        rc.command != RelayCommand::End,
        rc.command != RelayCommand::EstablishIntro,
        rc.command != RelayCommand::Introduce1,
        rc.command != RelayCommand::EstablishRendezvous,
        rc.command != RelayCommand::Rendezvous1,
    ensures
        relay::recognized_step(m, id, conn, rc).0 == m,
        relay::recognized_step(m, id, conn, rc).1.actions == Seq::<ActionView>::empty(),
        relay::recognized_step(m, id, conn, rc).1.end == Ending::Continue,
{
}

/// Of the cells, a relay acts on `Create` and `Relay` only; any other, and what is no message, changes
/// nothing and is not answered.
pub proof fn law_other_packets_do_nothing(
    manager: &mut CircuitManager,
    directory: &mut Directory,
    conn: ConnectionId,
    payload: &[u8],
    r: Step,
)
    requires
        call_ensures(relay::handle_packet, (manager, directory, conn, payload), r),
        match wire::get_message(payload@) {
            None => true,
            Some(MessageView::Gossip(_)) => false,
            Some(MessageView::TorCell(cell)) => cell.command != CellCommand::Create && cell.command
                != CellCommand::Relay,
        },
    ensures
        final(manager)@ == old(manager)@,
        final(directory)@ == old(directory)@,
        r@.actions == Seq::<ActionView>::empty(),
        r@.end == Ending::Continue,
{
}

/// A relay that is gossiped with answers on the same connection, with all that it knows once it has
/// taken the gossip in, and leaves its circuits alone.
pub proof fn law_gossip_is_answered_on_its_connection(
    manager: &mut CircuitManager,
    directory: &mut Directory,
    conn: ConnectionId,
    payload: &[u8],
    list: Seq<crate::descriptor::RelayView>,
    r: Step,
)
    requires
        call_ensures(relay::handle_packet, (manager, directory, conn, payload), r),
        wire::get_message(payload@) == Some(MessageView::Gossip(list)),
    ensures
        final(manager)@ == old(manager)@,
        final(directory)@.services == old(directory)@.services,
        final(directory)@.relays == crate::directory::with_relays(old(directory)@.relays, list),
        r@.actions.len() == 1,
        r@.actions[0] matches ActionView::Send { conn: to, packet } && to == conn
            && crate::directory_laws::updates_with(packet, final(directory)@.relays),
{
    let answer = choose|answer: Seq<crate::descriptor::RelayView>| #[trigger]
        crate::directory::lists_relays(answer, final(directory)@.relays) && r@ == relay::one(
            ActionView::Send { conn, packet: wire::message_packet(MessageView::Gossip(answer)) },
        );
    crate::directory_laws::lemma_updates_with(
        wire::message_packet(MessageView::Gossip(answer)),
        answer,
        final(directory)@.relays,
    );
}

/// A circuit that is created stands under the number that the client gave it. It answers on the
/// connection on which it was created, has no next hop, no streams and no link, full windows, and one
/// key for both directions, from their beginning. The answer carries the relay's public key.
pub proof fn law_created_circuits_are_new(
    manager: &mut CircuitManager,
    id: CircuitId,
    conn: ConnectionId,
    payload: &[u8],
    key: Option<EphemeralPrivateKey>,
    r: Option<Created>,
)
    requires
        call_ensures(relay::create_with, (manager, id, conn, payload, key), r),
    ensures
        r is Some == (key matches Some(k) && crypto::ephemeral_public(k) is Some
            && crypto::agreed_key(k, payload@) is Some),
        r is None ==> final(manager)@ == old(manager)@,
        r matches Some(made) ==> {
            let c = final(manager)@.circuits[id];
            &&& final(manager)@.circuits.dom().contains(id)
            &&& c.id == id
            &&& c.prev_hop_stream == Some(conn)
            &&& c.next_hop is None
            &&& c.next_hop_stream is None
            &&& c.linked_circuit_id is None
            &&& c.streams == Map::<u16, circuit::Stream>::empty()
            &&& c.package_window == 1000
            &&& c.deliver_window == 1000
            &&& c.forward_cipher == c.backward_cipher
            &&& c.forward_cipher matches Some(f) && f.used == 0 && Some(f.key)
                == crypto::agreed_key(key.unwrap(), payload@)
            &&& made.packet@ == wire::cell_packet(
                wire::CellView {
                    circ_id: id,
                    command: CellCommand::Created,
                    payload: crypto::ephemeral_public(key.unwrap()).unwrap(),
                },
            )
            &&& forall|k: CircuitId|
                k != id ==> final(manager)@.circuits.dom().contains(k) == #[trigger] old(manager)@.circuits.dom().contains(k) && final(manager)@.circuits[k] == old(manager)@.circuits[k]
            &&& final(manager)@.intro_points == old(manager)@.intro_points
            &&& final(manager)@.rendezvous_points == old(manager)@.rendezvous_points
            &&& old(manager)@.circuits.dom().contains(id) ==> forall|s: u16| #[trigger]
                old(manager)@.circuits[id].streams.dom().contains(s) ==> made.closed@.contains(
                    old(manager)@.circuits[id].streams[s].tcp_stream,
                )
            &&& old(manager)@.circuits.dom().contains(id) && old(manager)@.circuits[id].next_hop_stream is Some ==> made.closed@.contains(
                old(manager)@.circuits[id].next_hop_stream.unwrap(),
            )
        },
{
    if r is Some && old(manager)@.circuits.dom().contains(id) {
        let made = r.unwrap();
        let c = old(manager)@.circuits[id];
        let order = choose|order: Seq<u16>| #[trigger]
            relay::is_stream_order(c, order) && made.closed@ == relay::leftovers(c, order);
        let n = if c.next_hop_stream is Some {
            1int
        } else {
            0int
        };
        if n == 1 {
            assert(made.closed@[0] == c.next_hop_stream.unwrap());
        }
        assert forall|s: u16| #[trigger] c.streams.dom().contains(s) implies made.closed@.contains(
            c.streams[s].tcp_stream,
        ) by {
            assert(order.contains(s));
            let i = choose|i: int| 0 <= i < order.len() && order[i] == s;
            assert(made.closed@[n + i] == c.streams[s].tcp_stream);
        }
    }
}

/// A hop that made its part of the circuit is joined to it: it is the next hop from then on, at the
/// address that was dialed. Nothing else of the circuit changes but the cipher of the way back, which
/// carries the hop's answer to the client. A hop that did not is closed, and nothing changes.
pub proof fn law_hops_that_answer_are_joined(
    m: ManagerView,
    id: CircuitId,
    conn: ConnectionId,
    addr: SocketAddr,
    next: ConnectionId,
    payload: Seq<u8>,
    extended: RelayCellView,
)
    requires
        m.circuits.dom().contains(id),
        m.circuits[id].id == id,
        extended.stream_id == 0,
        extended.recognized == 0,
        extended.digest == 0,
        extended.command == RelayCommand::Extended,
        circuit::can_seal(m.circuits[id].backward_cipher, extended),
    ensures
        ({
            let (after, step) = relay::extend_answered_step(m, id, conn, addr, next, payload);
            let c = m.circuits[id];
            let d = after.circuits[id];
            match wire::get_message(payload) {
                Some(MessageView::TorCell(cell)) => {
                    &&& cell.command == CellCommand::Created && cell.payload == extended.data ==> {
                        &&& d.next_hop == Some(addr)
                        &&& d.next_hop_stream == Some(next)
                        &&& d.prev_hop_stream == c.prev_hop_stream
                        &&& d.forward_cipher == c.forward_cipher
                        &&& d.streams == c.streams
                        &&& d.linked_circuit_id == c.linked_circuit_id
                        &&& step.actions.len() > 0
                        &&& step.actions.last() == ActionView::Send {
                            conn,
                            packet: circuit::sealed_packet(id, c.backward_cipher, extended),
                        }
                        &&& c.next_hop_stream is None ==> step.actions.len() == 1
                    }
                    &&& cell.command != CellCommand::Created ==> after == m && step.actions
                        == seq![ActionView::Close { conn: next }]
                },
                _ => after == m && step.actions == seq![ActionView::Close { conn: next }],
            }
        }),
{
    match wire::get_message(payload) {
        Some(MessageView::TorCell(cell)) => {
            if cell.command == CellCommand::Created && cell.payload == extended.data {
                assert(extended == circuit::plain_relay_cell(
                    0,
                    RelayCommand::Extended,
                    cell.payload,
                ));
            }
        },
        _ => {},
    }
}

/// An exit connection that ends is closed and taken off its circuit, and the client is told, on the
/// stream's number, that it has ended. The other streams stay.
pub proof fn law_exits_that_end_are_reported(
    m: ManagerView,
    id: CircuitId,
    stream_id: u16,
    tcp: ConnectionId,
    to: ConnectionId,
    ended: RelayCellView,
)
    requires
        m.circuits.dom().contains(id),
        m.circuits[id].id == id,
        m.circuits[id].prev_hop_stream == Some(to),
        m.circuits[id].streams.dom().contains(stream_id),
        m.circuits[id].streams[stream_id].tcp_stream == tcp,
        ended.stream_id == stream_id,
        ended.recognized == 0,
        ended.digest == 0,
        ended.command == RelayCommand::End,
        ended.data.len() == 0,
        circuit::can_seal(m.circuits[id].backward_cipher, ended),
    ensures
        ({
            let (after, step) = relay::exit_closed_step(m, id, stream_id, tcp);
            let c = m.circuits[id];
            let d = after.circuits[id];
            &&& !d.streams.dom().contains(stream_id)
            &&& forall|k: u16|
                k != stream_id ==> d.streams.dom().contains(k) == #[trigger] c.streams.dom().contains(k)
                    && d.streams[k] == c.streams[k]
            &&& replies_with(
                step.actions,
                seq![ActionView::Close { conn: tcp }],
                to,
                c,
                ended,
            )
        }),
{
    assert(ended.data =~= Seq::empty());
    assert(ended == circuit::plain_relay_cell(stream_id, RelayCommand::End, Seq::empty()));
}

/// Data that is read from an exit connection goes to the client in one cell, whole, on the number of
/// its stream and to the connection that the circuit came from. The other streams stay, and nothing is
/// sent for a connection that no stream of the circuit has.
pub proof fn law_exit_data_goes_to_the_client(
    m: ManagerView,
    id: CircuitId,
    stream_id: u16,
    tcp: ConnectionId,
    to: ConnectionId,
    cell: RelayCellView,
)
    requires
        m.circuits.dom().contains(id),
        m.circuits[id].id == id,
        m.circuits[id].prev_hop_stream == Some(to),
        m.circuits[id].package_window > 0,
        m.circuits[id].streams.dom().contains(stream_id),
        m.circuits[id].streams[stream_id].package_window > 0,
        cell.stream_id == stream_id,
        cell.recognized == 0,
        cell.digest == 0,
        cell.command == RelayCommand::Data,
        circuit::can_seal(m.circuits[id].backward_cipher, cell),
    ensures
        ({
            let (after, read) = relay::exit_data_step(m, id, stream_id, tcp, cell.data);
            let c = m.circuits[id];
            let d = after.circuits[id];
            &&& c.streams[stream_id].tcp_stream == tcp ==> (read matches ExitReadView::Send(step)
                && replies_with(step.actions, Seq::empty(), to, c, cell))
            &&& c.streams[stream_id].tcp_stream != tcp ==> read is Gone && after == m
            &&& forall|k: u16|
                k != stream_id ==> d.streams.dom().contains(k) == #[trigger] c.streams.dom().contains(k)
                    && d.streams[k] == c.streams[k]
            &&& d.deliver_window == c.deliver_window
        }),
{
    assert(cell == circuit::plain_relay_cell(stream_id, RelayCommand::Data, cell.data));
}

/// What a client names in `Begin` is resolved as it stands: the action carries the circuit, the number
/// of the stream and the text, and the circuits stay as they are.
pub proof fn law_begin_asks_for_the_named_target(
    m: ManagerView,
    id: CircuitId,
    conn: ConnectionId,
    rc: RelayCellView,
    target: Seq<char>,
)
    requires
        m.circuits.dom().contains(id),
        m.circuits[id].id == id,
        m.circuits[id].linked_circuit_id is None,
        rc.command == RelayCommand::Begin,
        rc.data == vstd::utf8::encode_utf8(target),
    ensures
        relay::recognized_step(m, id, conn, rc).0 == m,
        relay::recognized_step(m, id, conn, rc).1.actions == seq![
            ActionView::Begin { circ_id: id, stream_id: rc.stream_id, target },
        ],
{
    crate::encoding::law_text_round_trip(target);
}

/// An address in six bytes is read with its port's high byte first, wherever the bytes stand.
pub proof fn law_addresses_are_read_from_six_bytes(
    data: &[u8],
    i: usize,
    r: SocketAddr,
)
    requires
        i + 6 <= data@.len(),
        i + 6 <= usize::MAX,
        call_ensures(relay::read_addr_at, (data, i), r),
    ensures
        r matches SocketAddr::V4 { ip, port } && ip.a == data@[i as int] && ip.b == data@[i + 1]
            && ip.c == data@[i + 2] && ip.d == data@[i + 3] && port == data@[i + 4] * 256 + data@[i
            + 5],
{
}

/// Two bytes and the number in them: the first counts 256 times, in both directions.
pub proof fn law_two_bytes_are_a_number(x: u16, s: Seq<u8>, i: int)
    requires
        0 <= i,
        i + 1 < s.len(),
    ensures
        bytes::be16(x).len() == 2,
        bytes::be16(x)[0] * 256 + bytes::be16(x)[1] == x,
        bytes::be16_at(s, i) == s[i] * 256 + s[i + 1],
        bytes::be16_at(bytes::be16(x), 0) == x,
{
    assert(x as int == (x as int / 256) * 256 + x as int % 256);
}

/// What is not for this hop, on a circuit that ends here, goes nowhere.
pub proof fn law_the_last_hop_passes_nothing_on(
    m: ManagerView,
    id: CircuitId,
    conn: ConnectionId,
    plain: Seq<u8>,
)
    requires
        m.circuits.dom().contains(id),
        m.circuits[id].next_hop_stream is None,
        wire::get_relay_cell(plain) matches Some(rc) ==> rc.recognized != 0,
    ensures
        relay::opened_step(m, id, conn, plain).0 == m,
        relay::opened_step(m, id, conn, plain).1.actions == Seq::<ActionView>::empty(),
{
}

/// A `Create` cell is answered on the connection that it came on, and on nothing else is anything sent:
/// the other actions close what a circuit of the same number leaves behind.
pub proof fn law_creates_are_answered_where_they_came_from(
    manager: &mut CircuitManager,
    directory: &mut Directory,
    conn: ConnectionId,
    payload: &[u8],
    cell: wire::CellView,
    r: Step,
)
    requires
        call_ensures(relay::handle_packet, (manager, directory, conn, payload), r),
        wire::get_message(payload@) == Some(MessageView::TorCell(cell)),
        cell.command == CellCommand::Create,
    ensures
        final(directory)@ == old(directory)@,
        r@.end == Ending::Continue,
        forall|i: int|
            0 <= i < r@.actions.len() ==> match #[trigger] r@.actions[i] {
                ActionView::Send { conn: to, .. } => to == conn && i == r@.actions.len() - 1,
                ActionView::Close { .. } => i < r@.actions.len() - 1,
                _ => false,
            },
        r@.actions.len() == 0 ==> final(manager)@ == old(manager)@,
        r@.actions.len() > 0 ==> {
            let c = final(manager)@.circuits[cell.circ_id];
            &&& final(manager)@.circuits.dom().contains(cell.circ_id)
            &&& c.prev_hop_stream == Some(conn)
            &&& c.forward_cipher is Some
            &&& c.forward_cipher == c.backward_cipher
            &&& cell.payload.len() == 32
        },
        !old(manager)@.circuits.dom().contains(cell.circ_id) ==> r@.actions.len() <= 1,
{
    let (answer, closed) = choose|answer: Option<Seq<u8>>, closed: Seq<ConnectionId>|
        #[trigger] relay::creates(
            old(manager)@,
            cell.circ_id,
            conn,
            cell.payload,
            final(manager)@,
            answer,
        ) && #[trigger] relay::create_closes(old(manager)@, cell.circ_id, answer, closed) && r@
            == relay::answered(conn, answer, closed);
    let made = choose|made: Option<EphemeralPrivateKey>|
        #[trigger] relay::create_result(
            old(manager)@,
            cell.circ_id,
            conn,
            cell.payload,
            made,
        ) == (final(manager)@, answer) && (answer is Some ==> relay::is_sound(cell.payload, made));
}

/// A circuit lasts for as many bytes as its cipher counts: blocks of 16 bytes, all but one of those
/// that 64 bits can number.
pub proof fn law_keystreams_are_long(c: crypto::CipherView, len: nat)
    ensures
        c.has_room(len) <==> c.used + len <= 16 * 0xffff_ffff_ffff_ffff,
        c.after(len).used == c.used + len,
        c.after(len).key == c.key,
{
}

/// The settings of the network: data is read in pieces of 4096 bytes and sent on stream 1, a service
/// publishes again after ten minutes, and a certificate lasts for a year of 365 days.
pub proof fn law_settings()
    ensures
        crate::link::UPLOAD_CHUNK == 4096,
        crate::link::DATA_STREAM == 1,
        crate::hidden_service::REPUBLISH_SECONDS == 10 * 60,
        crate::tls::CERTIFICATE_SECONDS == 365 * 24 * 60 * 60,
        crate::socks::RENDEZVOUS_SECONDS == 30,
{
}

/// A hop interprets what has a zero in the `recognized` field, whatever else stands there, and sends
/// anything else on as it is.
pub proof fn law_one_field_tells_whose_a_cell_is(
    m: ManagerView,
    id: CircuitId,
    conn: ConnectionId,
    plain: Seq<u8>,
    next: ConnectionId,
)
    requires
        m.circuits.dom().contains(id),
        m.circuits[id].next_hop_stream == Some(next),
    ensures
        match wire::get_relay_cell(plain) {
            Some(rc) => rc.recognized == 0 ==> relay::opened_step(m, id, conn, plain)
                == relay::recognized_step(m, id, conn, rc),
            None => true,
        },
        (wire::get_relay_cell(plain) matches Some(rc) ==> rc.recognized != 0)
            ==> relay::opened_step(m, id, conn, plain) == (
            m,
            relay::one(
                ActionView::Send {
                    conn: next,
                    packet: wire::cell_packet(
                        wire::CellView {
                            circ_id: id,
                            command: CellCommand::Relay,
                            payload: plain,
                        },
                    ),
                },
            ),
        ),
{
}

/// A hop that takes the place of another has the other's connection closed, and none else. Where the
/// circuit is gone, the hop's own is.
pub proof fn law_replaced_hops_are_closed(
    m: ManagerView,
    id: CircuitId,
    conn: ConnectionId,
    addr: SocketAddr,
    next: ConnectionId,
    payload: Seq<u8>,
)
    ensures
        ({
            let (after, step) = relay::extend_answered_step(m, id, conn, addr, next, payload);
            &&& !m.circuits.dom().contains(id) ==> after == m && step.actions
                == seq![ActionView::Close { conn: next }]
            &&& m.circuits.dom().contains(id) && after != m ==> {
                let closes = match m.circuits[id].next_hop_stream {
                    Some(former) if former != next => seq![ActionView::Close { conn: former }],
                    _ => Seq::empty(),
                };
                step.actions.len() <= closes.len() + 1 && step.actions.take(closes.len() as int)
                    == closes && forall|i: int|
                    closes.len() <= i < step.actions.len() ==> (#[trigger] step.actions[i]) is Send
            }
        }),
{
    let (after, step) = relay::extend_answered_step(m, id, conn, addr, next, payload);
    if m.circuits.dom().contains(id) && after != m {
        let closes = relay::replaced_hop(m.circuits[id], next);
        assert(step.actions.take(closes.len() as int) =~= closes);
    }
}

/// What comes late does nothing: data and the end of an exit connection whose stream is gone, or has
/// another connection now. A connection that is dialed for a circuit that is gone is closed.
pub proof fn law_late_events_do_nothing(
    m: ManagerView,
    id: CircuitId,
    conn: ConnectionId,
    stream_id: u16,
    tcp: ConnectionId,
    data: Seq<u8>,
)
    ensures
        !(m.circuits.dom().contains(id) && m.circuits[id].streams.dom().contains(stream_id)
            && m.circuits[id].streams[stream_id].tcp_stream == tcp) ==> {
            &&& relay::exit_data_step(m, id, stream_id, tcp, data).0 == m
            &&& relay::exit_data_step(m, id, stream_id, tcp, data).1 is Gone
            &&& relay::exit_closed_step(m, id, stream_id, tcp).0 == m
            &&& relay::exit_closed_step(m, id, stream_id, tcp).1.actions == Seq::<
                ActionView,
            >::empty()
        },
        !m.circuits.dom().contains(id) ==> {
            &&& relay::begin_dialed_step(m, id, conn, stream_id, Some(tcp)).0 == m
            &&& relay::begin_dialed_step(m, id, conn, stream_id, Some(tcp)).1.actions == seq![
                ActionView::Close { conn: tcp },
            ]
            &&& relay::begin_dialed_step(m, id, conn, stream_id, None).0 == m
            &&& relay::begin_dialed_step(m, id, conn, stream_id, None).1.actions == Seq::<
                ActionView,
            >::empty()
        },
{
}

/// A `Create` cell closes no connection but those that the former circuit of that number led out on.
pub proof fn law_only_former_connections_are_closed(
    manager: &mut CircuitManager,
    id: CircuitId,
    conn: ConnectionId,
    payload: &[u8],
    key: Option<EphemeralPrivateKey>,
    made: Created,
    i: int,
)
    requires
        call_ensures(relay::create_with, (manager, id, conn, payload, key), Some(made)),
        0 <= i < made.closed@.len(),
    ensures
        ({
            let c = old(manager)@.circuits[id];
            &&& old(manager)@.circuits.dom().contains(id)
            &&& c.next_hop_stream == Some(made.closed@[i]) || exists|s: u16| #[trigger]
                c.streams.dom().contains(s) && c.streams[s].tcp_stream == made.closed@[i]
        }),
{
    let c = old(manager)@.circuits[id];
    let order = choose|order: Seq<u16>| #[trigger]
        relay::is_stream_order(c, order) && made.closed@ == relay::leftovers(c, order);
    let n = if c.next_hop_stream is Some {
        1int
    } else {
        0int
    };
    if i >= n {
        let s = order[i - n];
        assert(order.contains(s));
        assert(c.streams.dom().contains(s));
        assert(made.closed@[i] == c.streams[s].tcp_stream);
    }
}

/// What a relay does with data, action by action: where a hundred cells have come on the circuit, that
/// is acknowledged on stream zero; the data is written; and where fifty have come on the stream, that
/// is acknowledged on the stream. The windows count every cell and every acknowledgement.
pub proof fn law_data_is_acknowledged(
    c: CircuitView,
    conn: ConnectionId,
    rc: RelayCellView,
    of_circuit: RelayCellView,
    of_stream: RelayCellView,
)
    requires
        relay::data_step(c, conn, rc).1.end == Ending::Continue,
        of_circuit.stream_id == 0,
        of_circuit.recognized == 0,
        of_circuit.digest == 0,
        of_circuit.command == RelayCommand::SendMe,
        of_circuit.data.len() == 0,
        of_stream.stream_id == rc.stream_id,
        of_stream.recognized == 0,
        of_stream.digest == 0,
        of_stream.command == RelayCommand::SendMe,
        of_stream.data.len() == 0,
    ensures
        ({
            let (after, step) = relay::data_step(c, conn, rc);
            let known = c.streams.dom().contains(rc.stream_id);
            let s = c.streams[rc.stream_id];
            let circuit_low = c.deliver_window <= 901;
            let stream_low = known && s.deliver_window <= 451;
            let b = c.backward_cipher;
            let mid = if circuit_low {
                circuit::cipher_after(b, of_circuit)
            } else {
                b
            };
            let first = if circuit_low {
                seq![ActionView::Send { conn, packet: circuit::sealed_packet(c.id, b, of_circuit) }]
            } else {
                Seq::empty()
            };
            let second = if known {
                seq![ActionView::Write { conn: s.tcp_stream, data: rc.data }]
            } else {
                Seq::empty()
            };
            let third = if stream_low {
                seq![ActionView::Send { conn, packet: circuit::sealed_packet(c.id, mid, of_stream) }]
            } else {
                Seq::empty()
            };
            &&& step.actions == first + second + third
            &&& after.backward_cipher == if stream_low {
                circuit::cipher_after(mid, of_stream)
            } else {
                mid
            }
            &&& after.deliver_window == c.deliver_window - 1 + if circuit_low {
                100int
            } else {
                0int
            }
            &&& known ==> after.streams[rc.stream_id].deliver_window == s.deliver_window - 1
                + if stream_low {
                50int
            } else {
                0int
            }
            &&& known ==> after.streams[rc.stream_id].tcp_stream == s.tcp_stream
                && after.streams[rc.stream_id].package_window == s.package_window
        }),
{
    assert(of_circuit == circuit::sendme(0)) by {
        assert(of_circuit.data =~= Seq::<u8>::empty());
    }
    assert(of_stream == circuit::sendme(rc.stream_id)) by {
        assert(of_stream.data =~= Seq::<u8>::empty());
    }
}

} // verus!
