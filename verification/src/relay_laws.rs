//! What holds of a relay over all cells and all states.

use crate::addr::SocketAddr;
use crate::circuit;
use crate::circuit::{CircuitView, ConnectionId, ManagerView};
use crate::crypto;
use crate::crypto::CipherView;
use crate::encoding;
use crate::exit_policy;
use crate::identity;
use crate::packet;
use crate::relay;
use crate::relay::{ActionView, Ending};
use crate::wire;
use crate::wire::{CellCommand, CellView, CircuitId, MessageView, RelayCellView, RelayCommand};
use vstd::prelude::*;

verus! {

/// A relay without exit rules never dials a destination.
pub proof fn law_relay_only_never_dials(resolved: Option<Seq<SocketAddr>>)
    ensures
        !relay::exit_allowed(Seq::empty(), resolved),
{
}

/// A destination that has no IPv4 address is rejected by every policy.
pub proof fn law_ipv6_destinations_are_refused(
    rules: Seq<exit_policy::ExitRule>,
    list: Seq<SocketAddr>,
)
    requires
        forall|i: int| 0 <= i < list.len() ==> #[trigger] list[i] is V6,
    ensures
        !relay::exit_allowed(rules, Some(list)),
    decreases list.len(),
{
    if list.len() > 0 {
        let rest = list.drop_first();
        assert(list[0] is V6);
        assert forall|i: int| 0 <= i < rest.len() implies #[trigger] rest[i] is V6 by {
            assert(rest[i] == list[i + 1]);
        }
        law_ipv6_destinations_are_refused(rules, rest);
    }
}

/// Nothing is dialed for `Begin` but an IPv4 address that the policy accepts: the first one that the
/// destination resolved to.
pub proof fn law_only_accepted_addresses_are_dialed(
    rules: Seq<exit_policy::ExitRule>,
    resolved: Option<Seq<SocketAddr>>,
)
    ensures
        match (relay::exit_address(rules, resolved), resolved) {
            (Some(SocketAddr::V4 { ip, port }), Some(list)) => exit_policy::verdict(rules, ip, port)
                == exit_policy::PolicyAction::Accept && relay::first_ipv4(list) == Some((ip, port))
                && list.contains(SocketAddr::V4 { ip, port }),
            (Some(_), _) => false,
            (None, _) => true,
        },
{
    if relay::exit_allowed(rules, resolved) {
        lemma_first_ipv4(resolved.unwrap());
    }
}

proof fn lemma_first_ipv4(list: Seq<SocketAddr>)
    ensures
        relay::first_ipv4(list) matches Some((ip, port)) ==> list.contains(
            SocketAddr::V4 { ip, port },
        ),
    decreases list.len(),
{
    if list.len() > 0 {
        match list[0] {
            SocketAddr::V4 { .. } => {},
            _ => {
                let rest = list.drop_first();
                lemma_first_ipv4(rest);
                if relay::first_ipv4(rest) is Some {
                    let (ip, port) = relay::first_ipv4(rest).unwrap();
                    let i = choose|i: int|
                        0 <= i < rest.len() && rest[i] == (SocketAddr::V4 { ip, port });
                    assert(list[i + 1] == rest[i]);
                }
            },
        }
    }
}

/// Whether the delivery windows of a circuit and its streams are where the flow control keeps them:
/// within one increment of full.
pub open spec fn windows_open(c: CircuitView) -> bool {
    &&& circuit::CIRCUIT_WINDOW_START - circuit::CIRCUIT_WINDOW_INCREMENT < c.deliver_window
        <= circuit::CIRCUIT_WINDOW_START
    &&& forall|s: u16| #[trigger]
        c.streams.dom().contains(s) ==> circuit::STREAM_WINDOW_START
            - circuit::STREAM_WINDOW_INCREMENT < c.streams[s].deliver_window
            <= circuit::STREAM_WINDOW_START
}

/// Whether the windows of all circuits are open.
pub open spec fn all_windows_open(m: ManagerView) -> bool {
    forall|id: CircuitId| #[trigger]
        m.circuits.dom().contains(id) ==> windows_open(m.circuits[id])
}

/// New circuits have open windows.
pub proof fn law_new_windows_are_open(id: CircuitId, conn: ConnectionId, key: Seq<u8>)
    ensures
        windows_open(relay::created_circuit(id, conn, key)),
{
}

/// Data never closes a delivery window: it is opened again in time, and only a keystream that is
/// used up can stop the flow.
pub proof fn law_windows_stay_open(c: CircuitView, conn: ConnectionId, rc: RelayCellView)
    requires
        windows_open(c),
    ensures
        ({
            let (after, step) = relay::data_step(c, conn, rc);
            &&& step.end == Ending::Continue ==> windows_open(after)
            &&& step.end != Ending::Continue ==> exists|cell: RelayCellView, d: CipherView| #![auto]
                after.backward_cipher == Some(d) && !circuit::can_seal(Some(d), cell)
        }),
{
    let (after, step) = relay::data_step(c, conn, rc);
    if step.end != Ending::Continue {
        let (mid, first) = relay::circuit_window_step(c, conn);
        if first.end != Ending::Continue {
            assert(!circuit::can_seal(mid.backward_cipher, circuit::sendme(0)));
        } else {
            assert(!circuit::can_seal(mid.backward_cipher, circuit::sendme(rc.stream_id)));
        }
    }
}

/// Every `SendMe` that a relay sends for data answers an increment of received cells: the window is
/// what it was, less the cell, plus the increment.
pub proof fn law_circuit_window_accounting(c: CircuitView, conn: ConnectionId)
    requires
        windows_open(c),
    ensures
        ({
            let (after, step) = relay::circuit_window_step(c, conn);
            step.end == Ending::Continue ==> after.deliver_window == c.deliver_window - 1
                + circuit::CIRCUIT_WINDOW_INCREMENT * step.actions.len()
        }),
{
}

proof fn lemma_reply(
    c: CircuitView,
    conn: ConnectionId,
    cell: RelayCellView,
    before: Seq<ActionView>,
)
    ensures
        ({
            let (after, step) = relay::reply_step(c, conn, cell, before);
            &&& after.id == c.id
            &&& after.streams == c.streams
            &&& after.deliver_window == c.deliver_window
            &&& after.linked_circuit_id == c.linked_circuit_id
            &&& windows_open(c) ==> windows_open(after)
        }),
{
}

proof fn lemma_with_open(m: ManagerView, c: CircuitView)
    requires
        all_windows_open(m),
        windows_open(c),
    ensures
        all_windows_open(m.with_circuit(c)),
{
}

proof fn lemma_forward_open(m: ManagerView, to: CircuitId, cell: RelayCellView)
    requires
        all_windows_open(m),
    ensures
        all_windows_open(relay::forward_step(m, to, cell).0),
{
    if m.circuits.dom().contains(to) {
        match m.circuits[to].prev_hop_stream {
            None => {},
            Some(conn) => {
                lemma_reply(m.circuits[to], conn, cell, Seq::empty());
                lemma_with_open(
                    m,
                    relay::reply_step(m.circuits[to], conn, cell, Seq::empty()).0,
                );
            },
        }
    }
}

proof fn lemma_answer_open(m: ManagerView, id: CircuitId, conn: ConnectionId, cell: RelayCellView)
    requires
        all_windows_open(m),
        m.circuits.dom().contains(id),
    ensures
        all_windows_open(relay::answer_step(m, id, conn, cell).0),
{
    lemma_reply(m.circuits[id], conn, cell, Seq::empty());
    lemma_with_open(m, relay::reply_step(m.circuits[id], conn, cell, Seq::empty()).0);
}

/// No cell, whatever it holds, leaves a delivery window closed, as long as the relay goes on.
pub proof fn law_relay_keeps_windows_open(
    m: ManagerView,
    id: CircuitId,
    conn: ConnectionId,
    payload: Seq<u8>,
)
    requires
        all_windows_open(m),
    ensures
        relay::relay_step(m, id, conn, payload).1.end == Ending::Continue ==> all_windows_open(
            relay::relay_step(m, id, conn, payload).0,
        ),
{
    if m.circuits.dom().contains(id) && m.circuits[id].forward_cipher is Some {
        let f = m.circuits[id].forward_cipher.unwrap();
        let c1 = CircuitView { forward_cipher: Some(f.after(payload.len())), ..m.circuits[id] };
        lemma_with_open(m, c1);
        let m1 = m.with_circuit(c1);
        match wire::get_relay_cell(f.output(payload)) {
            Some(rc) => if rc.recognized == 0 && m1.circuits.dom().contains(id) {
                lemma_recognized_open(m1, id, conn, rc);
            },
            None => {},
        }
    }
}

proof fn lemma_recognized_open(m: ManagerView, id: CircuitId, conn: ConnectionId, rc: RelayCellView)
    requires
        all_windows_open(m),
        m.circuits.dom().contains(id),
    ensures
        relay::recognized_step(m, id, conn, rc).1.end == Ending::Continue ==> all_windows_open(
            relay::recognized_step(m, id, conn, rc).0,
        ),
{
    let c = m.circuits[id];
    if c.linked_circuit_id is Some && !relay::sets_up_rendezvous(rc.command) {
        lemma_forward_open(m, c.linked_circuit_id.unwrap(), rc);
    } else {
        match rc.command {
            RelayCommand::Data => {
                law_windows_stay_open(c, conn, rc);
            },
            RelayCommand::EstablishIntro => {
                let m1 = ManagerView {
                    intro_points: m.intro_points.insert(rc.data.take(32), id),
                    ..m
                };
                lemma_answer_open(
                    m1,
                    id,
                    conn,
                    circuit::plain_relay_cell(0, RelayCommand::IntroEstablished, Seq::empty()),
                );
            },
            RelayCommand::Introduce1 => {
                lemma_forward_open(
                    m,
                    m.intro_points[rc.data.take(32)],
                    circuit::plain_relay_cell(0, RelayCommand::Introduce2, rc.data),
                );
            },
            RelayCommand::EstablishRendezvous => {
                let m1 = ManagerView {
                    rendezvous_points: m.rendezvous_points.insert(rc.data, id),
                    ..m
                };
                lemma_answer_open(
                    m1,
                    id,
                    conn,
                    circuit::plain_relay_cell(0, RelayCommand::RendezvousEstablished, Seq::empty()),
                );
            },
            RelayCommand::Rendezvous1 => {
                let client = m.rendezvous_points[rc.data.take(20)];
                let c1 = CircuitView { linked_circuit_id: Some(client), ..c };
                lemma_with_open(m, c1);
                let m1 = m.with_circuit(c1);
                if m1.circuits.dom().contains(client) {
                    let c2 = CircuitView { linked_circuit_id: Some(id), ..m1.circuits[client] };
                    lemma_with_open(m1, c2);
                    lemma_forward_open(
                        m1.with_circuit(c2),
                        client,
                        circuit::plain_relay_cell(0, RelayCommand::Rendezvous2, rc.data.skip(20)),
                    );
                }
            },
            _ => {},
        }
    }
}

/// A service that asks to be introduced is registered on its circuit, and told so.
pub proof fn law_establish_intro_registers(
    m: ManagerView,
    id: CircuitId,
    conn: ConnectionId,
    key: Seq<u8>,
)
    requires
        identity::valid_key(key),
    ensures
        ({
            let (after, step) = relay::establish_intro_step(m, id, conn, key);
            let cell = circuit::plain_relay_cell(0, RelayCommand::IntroEstablished, Seq::empty());
            &&& after.intro_points == m.intro_points.insert(key, id)
            &&& step.end == Ending::Continue ==> step == relay::one(
                ActionView::Send {
                    conn,
                    packet: circuit::sealed_packet(
                        m.circuits[id].id,
                        m.circuits[id].backward_cipher,
                        cell,
                    ),
                },
            )
        }),
{
    assert(key.take(32) =~= key);
    let (after, step) = relay::establish_intro_step(m, id, conn, key);
    let cell = circuit::plain_relay_cell(0, RelayCommand::IntroEstablished, Seq::empty());
    assert(step.end == Ending::Continue ==> step.actions =~= relay::one(
        ActionView::Send {
            conn,
            packet: circuit::sealed_packet(
                m.circuits[id].id,
                m.circuits[id].backward_cipher,
                cell,
            ),
        },
    ).actions);
}

/// A client that waits with a cookie is registered on its circuit, and told so.
pub proof fn law_establish_rendezvous_registers(
    m: ManagerView,
    id: CircuitId,
    conn: ConnectionId,
    cookie: Seq<u8>,
)
    requires
        cookie.len() == 20,
    ensures
        ({
            let (after, step) = relay::establish_rendezvous_step(m, id, conn, cookie);
            let cell = circuit::plain_relay_cell(
                0,
                RelayCommand::RendezvousEstablished,
                Seq::empty(),
            );
            &&& after.rendezvous_points == m.rendezvous_points.insert(cookie, id)
            &&& step.end == Ending::Continue ==> step == relay::one(
                ActionView::Send {
                    conn,
                    packet: circuit::sealed_packet(
                        m.circuits[id].id,
                        m.circuits[id].backward_cipher,
                        cell,
                    ),
                },
            )
        }),
{
    let (after, step) = relay::establish_rendezvous_step(m, id, conn, cookie);
    let cell = circuit::plain_relay_cell(0, RelayCommand::RendezvousEstablished, Seq::empty());
    assert(step.end == Ending::Continue ==> step.actions =~= relay::one(
        ActionView::Send {
            conn,
            packet: circuit::sealed_packet(
                m.circuits[id].id,
                m.circuits[id].backward_cipher,
                cell,
            ),
        },
    ).actions);
}

/// A rendezvous links two circuits with each other, both ways.
pub proof fn law_rendezvous_links_both_ways(m: ManagerView, id: CircuitId, data: Seq<u8>)
    requires
        circuit::numbered(m),
        m.circuits.dom().contains(id),
        data.len() >= 20,
        m.rendezvous_points.dom().contains(data.take(20)),
        m.rendezvous_points[data.take(20)] != id,
        m.circuits.dom().contains(m.rendezvous_points[data.take(20)]),
    ensures
        ({
            let client = m.rendezvous_points[data.take(20)];
            let after = relay::rendezvous1_step(m, id, data).0;
            after.circuits[id].linked_circuit_id == Some(client)
                && after.circuits[client].linked_circuit_id == Some(id)
        }),
{
}

/// Once linked, a circuit hands every cell but the rendezvous commands to the other circuit as it
/// is, and interprets nothing itself.
pub proof fn law_linked_circuits_are_transparent(
    m: ManagerView,
    id: CircuitId,
    to: CircuitId,
    conn: ConnectionId,
    next: ConnectionId,
    rc: RelayCellView,
)
    requires
        circuit::numbered(m),
        m.circuits.dom().contains(id),
        m.circuits.dom().contains(to),
        to != id,
        m.circuits[id].linked_circuit_id == Some(to),
        m.circuits[to].prev_hop_stream == Some(next),
        circuit::can_seal(m.circuits[to].backward_cipher, rc),
        rc.command != RelayCommand::EstablishRendezvous,
        rc.command != RelayCommand::Rendezvous1,
    ensures
        relay::recognized_step(m, id, conn, rc).1 == relay::one(
            ActionView::Send {
                conn: next,
                packet: circuit::sealed_packet(to, m.circuits[to].backward_cipher, rc),
            },
        ),
        relay::recognized_step(m, id, conn, rc).0.circuits[id] == m.circuits[id],
{
    assert(relay::recognized_step(m, id, conn, rc).1.actions =~= relay::one(
        ActionView::Send {
            conn: next,
            packet: circuit::sealed_packet(to, m.circuits[to].backward_cipher, rc),
        },
    ).actions);
}

/// The other end of a circuit, with its cipher in step, reads from a sealed packet the very cell
/// that was sealed, and is in step again afterwards.
pub proof fn law_sealed_cells_open(
    circ_id: CircuitId,
    cipher: CipherView,
    cell: RelayCellView,
    rest: Seq<u8>,
)
    requires
        wire::put_message(
            MessageView::TorCell(
                CellView {
                    circ_id,
                    command: CellCommand::Relay,
                    payload: cipher.output(wire::put_relay_cell(cell)),
                },
            ),
        ).len() <= packet::MAX_PACKET_LEN,
    ensures
        ({
            let sealed = cipher.output(wire::put_relay_cell(cell));
            &&& packet::unframed(
                circuit::sealed_packet(circ_id, Some(cipher), cell) + rest,
            ) matches Ok(payload)
            &&& wire::get_message(payload) == Some(
                MessageView::TorCell(
                    CellView { circ_id, command: CellCommand::Relay, payload: sealed },
                ),
            )
            &&& wire::get_relay_cell(cipher.output(sealed)) == Some(cell)
            &&& Some(cipher.after(sealed.len())) == circuit::cipher_after(Some(cipher), cell)
        }),
{
    let plain = wire::put_relay_cell(cell);
    let sealed = cipher.output(plain);
    let v = MessageView::TorCell(
        CellView { circ_id, command: CellCommand::Relay, payload: sealed },
    );
    crypto::law_cipher_round_trip(cipher, plain);
    lemma_payload_shorter(circ_id, sealed);
    lemma_data_shorter(cell);
    wire::law_packet_carries_message(v, rest);
    wire::law_relay_cell_round_trip(cell);
}

proof fn lemma_payload_shorter(circ_id: CircuitId, payload: Seq<u8>)
    ensures
        payload.len() <= wire::put_message(
            MessageView::TorCell(CellView { circ_id, command: CellCommand::Relay, payload }),
        ).len(),
{
}

proof fn lemma_data_shorter(cell: RelayCellView)
    ensures
        cell.data.len() <= wire::put_relay_cell(cell).len(),
{
}

/// A relay whose cipher is in step with the client's interprets the very cell that the client sealed,
/// and is in step again afterwards.
pub proof fn law_client_cells_are_interpreted(
    m: ManagerView,
    id: CircuitId,
    conn: ConnectionId,
    cipher: CipherView,
    cell: RelayCellView,
)
    requires
        m.circuits.dom().contains(id),
        m.circuits[id].forward_cipher == Some(cipher),
        circuit::can_seal(Some(cipher), cell),
        cell.recognized == 0,
        cell.data.len() <= u64::MAX,
    ensures
        relay::relay_step(m, id, conn, cipher.output(wire::put_relay_cell(cell)))
            == relay::recognized_step(
            m.with_circuit(
                CircuitView {
                    forward_cipher: circuit::cipher_after(Some(cipher), cell),
                    ..m.circuits[id]
                },
            ),
            id,
            conn,
            cell,
        ),
{
    crypto::law_cipher_round_trip(cipher, wire::put_relay_cell(cell));
    wire::law_relay_cell_round_trip(cell);
}

/// Both ends of a created circuit hold the same key: if the sender of a `Create` cell sent the
/// public key of its own private key, then agreeing with the answered public key gives the sender
/// the key of the relay's circuit.
pub proof fn law_both_ends_share_the_key(
    before: ManagerView,
    id: CircuitId,
    conn: ConnectionId,
    sender: ring::agreement::EphemeralPrivateKey,
    payload: Seq<u8>,
    after: ManagerView,
    answer: Seq<u8>,
)
    requires
        crypto::ephemeral_public(sender) == Some(payload),
        relay::creates(before, id, conn, payload, after, Some(answer)),
    ensures
        exists|public: Seq<u8>, key: Seq<u8>|
            answer == #[trigger] relay::created_packet(id, public) && crypto::agreed_key(
                sender,
                public,
            ) == Some(key) && after == before.with_circuit(
                #[trigger] relay::created_circuit(id, conn, key),
            ),
{
    let made = choose|made: Option<ring::agreement::EphemeralPrivateKey>|
        #[trigger] relay::create_result(before, id, conn, payload, made) == (after, Some(answer))
            && relay::is_sound(payload, made);
    let e = made.unwrap();
    let public = crypto::ephemeral_public(e).unwrap();
    let key = crypto::agreed_key(e, payload).unwrap();
    assert(crypto::agreed_key(sender, public) == Some(key));
    assert(answer == relay::created_packet(id, public));
    assert(after == before.with_circuit(relay::created_circuit(id, conn, key)));
}

/// The answer to a `Create` cell carries a public key of 32 bytes, as the cell itself did.
pub proof fn law_handshake_keys_have_32_bytes(
    before: ManagerView,
    id: CircuitId,
    conn: ConnectionId,
    payload: Seq<u8>,
    after: ManagerView,
    answer: Seq<u8>,
)
    requires
        relay::creates(before, id, conn, payload, after, Some(answer)),
    ensures
        payload.len() == 32,
        exists|public: Seq<u8>|
            public.len() == 32 && answer == #[trigger] relay::created_packet(id, public),
{
    let made = choose|made: Option<ring::agreement::EphemeralPrivateKey>|
        #[trigger] relay::create_result(before, id, conn, payload, made) == (after, Some(answer))
            && relay::is_sound(payload, made) && (made matches Some(k)
            ==> crypto::has_x25519_length(k));
    let public = crypto::ephemeral_public(made.unwrap()).unwrap();
    assert(answer == relay::created_packet(id, public));
}

/// A `Create` cell whose payload is no X25519 public key makes no circuit.
pub proof fn law_malformed_create_is_ignored(
    before: ManagerView,
    id: CircuitId,
    conn: ConnectionId,
    payload: Seq<u8>,
    after: ManagerView,
    answer: Option<Seq<u8>>,
)
    requires
        payload.len() != 32,
        relay::creates(before, id, conn, payload, after, answer),
    ensures
        answer is None,
        after == before,
{
}

/// Whether nothing of the state leads from a circuit to another one.
pub open spec fn nothing_leads_to(m: ManagerView, id: CircuitId, other: CircuitId) -> bool {
    &&& m.circuits.dom().contains(id) ==> m.circuits[id].linked_circuit_id != Some(other)
    &&& forall|k: Seq<u8>| #[trigger]
        m.intro_points.dom().contains(k) ==> m.intro_points[k] != other
    &&& forall|k: Seq<u8>| #[trigger]
        m.rendezvous_points.dom().contains(k) ==> m.rendezvous_points[k] != other
}

/// Whether a circuit is the same in two states.
pub open spec fn same_circuit(a: ManagerView, b: ManagerView, id: CircuitId) -> bool {
    b.circuits.dom().contains(id) && b.circuits[id] == a.circuits[id]
}

proof fn lemma_forward_untouched(
    m: ManagerView,
    to: CircuitId,
    cell: RelayCellView,
    other: CircuitId,
)
    requires
        circuit::numbered(m),
        m.circuits.dom().contains(other),
        other != to,
    ensures
        same_circuit(m, relay::forward_step(m, to, cell).0, other),
{
}

proof fn lemma_answer_untouched(
    m: ManagerView,
    id: CircuitId,
    conn: ConnectionId,
    cell: RelayCellView,
    other: CircuitId,
)
    requires
        circuit::numbered(m),
        m.circuits.dom().contains(id),
        m.circuits.dom().contains(other),
        other != id,
    ensures
        same_circuit(m, relay::answer_step(m, id, conn, cell).0, other),
{
}

proof fn lemma_recognized_untouched(
    m: ManagerView,
    id: CircuitId,
    conn: ConnectionId,
    rc: RelayCellView,
    other: CircuitId,
)
    requires
        circuit::numbered(m),
        m.circuits.dom().contains(id),
        m.circuits.dom().contains(other),
        other != id,
        nothing_leads_to(m, id, other),
    ensures
        same_circuit(m, relay::recognized_step(m, id, conn, rc).0, other),
{
    let c = m.circuits[id];
    if c.linked_circuit_id is Some && !relay::sets_up_rendezvous(rc.command) {
        lemma_forward_untouched(m, c.linked_circuit_id.unwrap(), rc, other);
    } else {
        match rc.command {
            RelayCommand::EstablishIntro => {
                lemma_answer_untouched(
                    ManagerView { intro_points: m.intro_points.insert(rc.data.take(32), id), ..m },
                    id,
                    conn,
                    circuit::plain_relay_cell(0, RelayCommand::IntroEstablished, Seq::empty()),
                    other,
                );
            },
            RelayCommand::Introduce1 => {
                if m.intro_points.dom().contains(rc.data.take(32)) {
                    lemma_forward_untouched(
                        m,
                        m.intro_points[rc.data.take(32)],
                        circuit::plain_relay_cell(0, RelayCommand::Introduce2, rc.data),
                        other,
                    );
                }
            },
            RelayCommand::EstablishRendezvous => {
                lemma_answer_untouched(
                    ManagerView { rendezvous_points: m.rendezvous_points.insert(rc.data, id), ..m },
                    id,
                    conn,
                    circuit::plain_relay_cell(0, RelayCommand::RendezvousEstablished, Seq::empty()),
                    other,
                );
            },
            RelayCommand::Rendezvous1 => {
                if m.rendezvous_points.dom().contains(rc.data.take(20)) {
                    let client = m.rendezvous_points[rc.data.take(20)];
                    let m1 = m.with_circuit(CircuitView { linked_circuit_id: Some(client), ..c });
                    if m1.circuits.dom().contains(client) {
                        lemma_forward_untouched(
                            m1.with_circuit(
                                CircuitView { linked_circuit_id: Some(id), ..m1.circuits[client] },
                            ),
                            client,
                            circuit::plain_relay_cell(
                                0,
                                RelayCommand::Rendezvous2,
                                rc.data.skip(20),
                            ),
                            other,
                        );
                    }
                }
            },
            _ => {},
        }
    }
}

/// A cell changes no circuit but its own and those that a link, an introduction or a rendezvous
/// leads to.
pub proof fn law_other_circuits_are_untouched(
    m: ManagerView,
    id: CircuitId,
    conn: ConnectionId,
    payload: Seq<u8>,
    other: CircuitId,
)
    requires
        circuit::numbered(m),
        m.circuits.dom().contains(other),
        other != id,
        nothing_leads_to(m, id, other),
    ensures
        same_circuit(m, relay::relay_step(m, id, conn, payload).0, other),
{
    if m.circuits.dom().contains(id) && m.circuits[id].forward_cipher is Some {
        let f = m.circuits[id].forward_cipher.unwrap();
        let m1 = m.with_circuit(
            CircuitView { forward_cipher: Some(f.after(payload.len())), ..m.circuits[id] },
        );
        match wire::get_relay_cell(f.output(payload)) {
            Some(rc) => if rc.recognized == 0 {
                lemma_recognized_untouched(m1, id, conn, rc, other);
            },
            None => {},
        }
    }
}

/// The exit resolves the very destination that the client named.
pub proof fn law_exit_reads_the_target(
    m: ManagerView,
    id: CircuitId,
    conn: ConnectionId,
    stream_id: u16,
    target: Seq<char>,
)
    requires
        m.circuits.dom().contains(id),
        m.circuits[id].linked_circuit_id is None,
    ensures
        relay::recognized_step(
            m,
            id,
            conn,
            circuit::plain_relay_cell(
                stream_id,
                RelayCommand::Begin,
                vstd::utf8::encode_utf8(target),
            ),
        ) == (
            m,
            relay::one(ActionView::Begin { circ_id: m.circuits[id].id, stream_id, target }),
        ),
{
    encoding::law_text_round_trip(target);
}

/// A cell for a circuit that is not there changes nothing and is not answered.
pub proof fn law_unknown_circuits_are_ignored(
    m: ManagerView,
    id: CircuitId,
    conn: ConnectionId,
    payload: Seq<u8>,
)
    requires
        !m.circuits.dom().contains(id),
    ensures
        relay::relay_step(m, id, conn, payload) == (m, relay::idle()),
{
}

} // verus!
