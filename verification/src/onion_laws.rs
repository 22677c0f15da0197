//! What holds of a circuit as a whole, over the client and all of its hops.

use crate::addr::SocketAddr;
use crate::circuit;
use crate::circuit::{CircuitView, ConnectionId, ManagerView};
use crate::client;
use crate::client::{BuildError, BuilderView};
use crate::crypto;
use crate::crypto::CipherView;
use crate::link;
use crate::link::{LinkView, ReceiveError};
use crate::onion;
use crate::packet;
use crate::relay;
use crate::relay::ActionView;
use crate::relay_laws;
use crate::wire;
use crate::wire::{CellCommand, CellView, CircuitId, MessageView, RelayCellView, RelayCommand};
use ring::agreement::EphemeralPrivateKey;
use vstd::prelude::*;

verus! {

/// What is left of a cell where it comes to a hop on its way out, or leaves it on its way back: the
/// layers of this hop and the later ones.
pub open spec fn layers_left(layers: Seq<CipherView>, cell: RelayCellView, hop: int) -> Seq<u8> {
    onion::onion(layers.skip(hop), wire::put_relay_cell(cell))
}

pub open spec fn left_cell(
    id: CircuitId,
    layers: Seq<CipherView>,
    cell: RelayCellView,
    hop: int,
) -> CellView {
    CellView { circ_id: id, command: CellCommand::Relay, payload: layers_left(layers, cell, hop) }
}

/// Whether a circuit goes over these relays, the nearest first: every one is joined to the next, and
/// shares its forward cipher with the client.
pub open spec fn leads_out(
    relays: Seq<ManagerView>,
    id: CircuitId,
    nexts: Seq<ConnectionId>,
    layers: Seq<CipherView>,
) -> bool {
    &&& relays.len() == layers.len()
    &&& relays.len() > 0
    &&& forall|j: int|
        0 <= j < relays.len() ==> (#[trigger] relays[j]).circuits.dom().contains(id)
            && relays[j].circuits[id].id == id && relays[j].circuits[id].forward_cipher == Some(
            layers[j],
        )
    &&& forall|j: int|
        0 <= j < relays.len() - 1 ==> (#[trigger] relays[j]).circuits[id].next_hop_stream == Some(
            nexts[j],
        )
}

/// A hop after a cell of so many bytes on its way out.
pub open spec fn moved_out(m: ManagerView, id: CircuitId, len: nat) -> ManagerView {
    m.with_circuit(
        CircuitView {
            forward_cipher: Some(m.circuits[id].forward_cipher.unwrap().after(len)),
            ..m.circuits[id]
        },
    )
}

proof fn lemma_peel(layers: Seq<CipherView>, cell: RelayCellView, hop: int)
    requires
        0 <= hop < layers.len(),
    ensures
        layers[hop].output(layers_left(layers, cell, hop)) == layers_left(layers, cell, hop + 1),
        layers[hop].output(layers_left(layers, cell, hop + 1)) == layers_left(layers, cell, hop),
        layers_left(layers, cell, hop).len() == wire::put_relay_cell(cell).len(),
        layers_left(layers, cell, layers.len() as int) == wire::put_relay_cell(cell),
{
    let rest = layers.skip(hop);
    assert(rest[0] == layers[hop]);
    assert(rest.drop_first() =~= layers.skip(hop + 1));
    onion::law_hops_peel_one_layer(rest, wire::put_relay_cell(cell));
    onion::lemma_onion_len(rest, wire::put_relay_cell(cell));
    assert(layers.skip(layers.len() as int) =~= Seq::empty());
}

/// A hop sends on what it does not recognize.
proof fn lemma_sent_on(
    m: ManagerView,
    id: CircuitId,
    conn: ConnectionId,
    next: ConnectionId,
    payload: Seq<u8>,
)
    requires
        m.circuits.dom().contains(id),
        m.circuits[id].id == id,
        m.circuits[id].next_hop_stream == Some(next),
        m.circuits[id].forward_cipher matches Some(f) && f.has_room(payload.len())
            && !relay::is_recognized(f.output(payload)),
    ensures
        relay::relay_step(m, id, conn, payload) == (
            moved_out(m, id, payload.len()),
            relay::one(
                ActionView::Send {
                    conn: next,
                    packet: wire::cell_packet(
                        CellView {
                            circ_id: id,
                            command: CellCommand::Relay,
                            payload: m.circuits[id].forward_cipher.unwrap().output(payload),
                        },
                    ),
                },
            ),
        ),
{
    let m1 = moved_out(m, id, payload.len());
    assert(m1.circuits[id].next_hop_stream == Some(next));
}

/// A hop interprets what it recognizes.
proof fn lemma_opened(m: ManagerView, id: CircuitId, conn: ConnectionId, payload: Seq<u8>)
    requires
        m.circuits.dom().contains(id),
        m.circuits[id].forward_cipher matches Some(f) && f.has_room(payload.len())
            && relay::is_recognized(f.output(payload)),
    ensures
        relay::relay_step(m, id, conn, payload) == relay::recognized_step(
            moved_out(m, id, payload.len()),
            id,
            conn,
            wire::get_relay_cell(
                m.circuits[id].forward_cipher.unwrap().output(payload),
            ).unwrap(),
        ),
{
}

/// The client's packet carries the cell under the layers of all hops.
pub proof fn law_the_client_puts_on_all_layers(l: LinkView, cell: RelayCellView)
    ensures
        l.packet(cell) == wire::cell_packet(left_cell(l.circ_id, l.forward, cell, 0)),
{
    assert(l.forward.skip(0) =~= l.forward);
}

/// A cell that the client sends to the last hop is interpreted there, as it is, and by no earlier
/// hop: every earlier one takes its own layer off and sends the rest on to the next. The bytes under
/// the layers that are left must not themselves read as a cell for an earlier hop.
pub proof fn law_cells_reach_their_hop(
    relays: Seq<ManagerView>,
    id: CircuitId,
    conn: ConnectionId,
    nexts: Seq<ConnectionId>,
    layers: Seq<CipherView>,
    cell: RelayCellView,
)
    requires
        leads_out(relays, id, nexts, layers),
        onion::have_room(layers, wire::put_relay_cell(cell).len()),
        cell.recognized == 0,
        cell.data.len() <= u64::MAX,
        forall|j: int|
            0 < j < layers.len() ==> !relay::is_recognized(#[trigger] layers_left(layers, cell, j)),
    ensures
        ({
            let len = wire::put_relay_cell(cell).len();
            let last = layers.len() - 1;
            &&& forall|j: int|
                0 <= j < last ==> relay::relay_step(
                    relays[j],
                    id,
                    conn,
                    #[trigger] layers_left(layers, cell, j),
                ) == (
                    moved_out(relays[j], id, len),
                    relay::one(
                        ActionView::Send {
                            conn: nexts[j],
                            packet: wire::cell_packet(left_cell(id, layers, cell, j + 1)),
                        },
                    ),
                )
            &&& relay::relay_step(relays[last], id, conn, layers_left(layers, cell, last))
                == relay::recognized_step(moved_out(relays[last], id, len), id, conn, cell)
        }),
{
    let len = wire::put_relay_cell(cell).len();
    let last = layers.len() - 1;
    assert forall|j: int| 0 <= j < last implies relay::relay_step(
        relays[j],
        id,
        conn,
        #[trigger] layers_left(layers, cell, j),
    ) == (
        moved_out(relays[j], id, len),
        relay::one(
            ActionView::Send {
                conn: nexts[j],
                packet: wire::cell_packet(left_cell(id, layers, cell, j + 1)),
            },
        ),
    ) by {
        lemma_peel(layers, cell, j);
        assert(relays[j].circuits.dom().contains(id));
        assert(layers[j].has_room(len));
        assert(!relay::is_recognized(layers_left(layers, cell, j + 1)));
        lemma_sent_on(relays[j], id, conn, nexts[j], layers_left(layers, cell, j));
    }
    lemma_peel(layers, cell, last);
    assert(relays[last].circuits.dom().contains(id));
    assert(layers[last].has_room(len));
    wire::law_relay_cell_round_trip(cell);
    lemma_opened(relays[last], id, conn, layers_left(layers, cell, last));
}

/// The destination that a client names in `Begin` is resolved by the last hop of its circuit, and by
/// no earlier one: those have nothing to do but to send the cell on.
pub proof fn law_only_the_last_hop_exits(
    relays: Seq<ManagerView>,
    id: CircuitId,
    conn: ConnectionId,
    nexts: Seq<ConnectionId>,
    layers: Seq<CipherView>,
    stream_id: u16,
    target: Seq<char>,
)
    requires
        leads_out(relays, id, nexts, layers),
        relays.last().circuits[id].linked_circuit_id is None,
        vstd::utf8::encode_utf8(target).len() <= u64::MAX,
        ({
            let cell = circuit::plain_relay_cell(
                stream_id,
                RelayCommand::Begin,
                vstd::utf8::encode_utf8(target),
            );
            &&& onion::have_room(layers, wire::put_relay_cell(cell).len())
            &&& forall|j: int|
                0 < j < layers.len() ==> !relay::is_recognized(
                    #[trigger] layers_left(layers, cell, j),
                )
        }),
    ensures
        ({
            let cell = circuit::plain_relay_cell(
                stream_id,
                RelayCommand::Begin,
                vstd::utf8::encode_utf8(target),
            );
            let last = layers.len() - 1;
            &&& relay::relay_step(relays[last], id, conn, layers_left(layers, cell, last)).1
                == relay::one(ActionView::Begin { circ_id: id, stream_id, target })
            &&& forall|j: int|
                0 <= j < last ==> relay::relay_step(
                    relays[j],
                    id,
                    conn,
                    #[trigger] layers_left(layers, cell, j),
                ).1 == relay::one(
                    ActionView::Send {
                        conn: nexts[j],
                        packet: wire::cell_packet(left_cell(id, layers, cell, j + 1)),
                    },
                )
        }),
{
    let cell = circuit::plain_relay_cell(
        stream_id,
        RelayCommand::Begin,
        vstd::utf8::encode_utf8(target),
    );
    law_cells_reach_their_hop(relays, id, conn, nexts, layers, cell);
    let last = layers.len() - 1;
    assert(relays[last].circuits.dom().contains(id));
    let m1 = moved_out(relays[last], id, wire::put_relay_cell(cell).len());
    relay_laws::law_exit_reads_the_target(m1, id, conn, stream_id, target);
}

/// Whether a circuit comes back over these relays, the nearest first: every one knows the connections
/// to both sides, and shares its backward cipher with the client.
pub open spec fn leads_back(
    relays: Seq<ManagerView>,
    id: CircuitId,
    prevs: Seq<ConnectionId>,
    nexts: Seq<ConnectionId>,
    layers: Seq<CipherView>,
) -> bool {
    &&& relays.len() == layers.len()
    &&& relays.len() > 0
    &&& forall|j: int|
        0 <= j < relays.len() ==> (#[trigger] relays[j]).circuits.dom().contains(id)
            && relays[j].circuits[id].id == id && relays[j].circuits[id].backward_cipher == Some(
            layers[j],
        ) && relays[j].circuits[id].prev_hop_stream == Some(prevs[j])
    &&& forall|j: int|
        0 <= j < relays.len() - 1 ==> (#[trigger] relays[j]).circuits[id].next_hop_stream == Some(
            nexts[j],
        )
}

/// What the last hop answers comes to the client as it is: the last hop seals it, every earlier hop
/// adds its layer and sends it on towards the client, and the client takes all layers off.
pub proof fn law_answers_reach_the_client(
    relays: Seq<ManagerView>,
    id: CircuitId,
    prevs: Seq<ConnectionId>,
    nexts: Seq<ConnectionId>,
    layers: Seq<CipherView>,
    cell: RelayCellView,
)
    requires
        leads_back(relays, id, prevs, nexts, layers),
        onion::have_room(layers, wire::put_relay_cell(cell).len()),
        cell.data.len() <= u64::MAX,
        wire::put_relay_cell(cell).len() <= u64::MAX,
    ensures
        ({
            let last = layers.len() - 1;
            let c = relays[last].circuits[id];
            let payload = wire::put_message(MessageView::TorCell(left_cell(id, layers, cell, 0)));
            &&& relay::reply_step(c, prevs[last], cell, Seq::empty()).1 == relay::one(
                ActionView::Send {
                    conn: prevs[last],
                    packet: wire::cell_packet(left_cell(id, layers, cell, last)),
                },
            )
            &&& forall|j: int|
                0 <= j < last ==> relay::returned_step(
                    relays[j],
                    nexts[j],
                    #[trigger] left_cell(id, layers, cell, j + 1),
                ).1 == relay::one(
                    ActionView::Send {
                        conn: prevs[j],
                        packet: wire::cell_packet(left_cell(id, layers, cell, j)),
                    },
                )
            &&& link::received(layers, payload) == Ok::<_, ReceiveError>(cell)
        }),
{
    let len = wire::put_relay_cell(cell).len();
    let last = layers.len() - 1;
    let c = relays[last].circuits[id];
    lemma_peel(layers, cell, last);
    assert(c.backward_cipher == Some(layers[last]));
    assert(layers[last].has_room(len));
    assert(relay::reply_step(c, prevs[last], cell, Seq::empty()).1.actions =~= relay::one(
        ActionView::Send {
            conn: prevs[last],
            packet: wire::cell_packet(left_cell(id, layers, cell, last)),
        },
    ).actions);
    assert forall|j: int| 0 <= j < last implies relay::returned_step(
        relays[j],
        nexts[j],
        #[trigger] left_cell(id, layers, cell, j + 1),
    ).1 == relay::one(
        ActionView::Send {
            conn: prevs[j],
            packet: wire::cell_packet(left_cell(id, layers, cell, j)),
        },
    ) by {
        lemma_peel(layers, cell, j);
        lemma_peel(layers, cell, j + 1);
        assert(relays[j].circuits[id].backward_cipher == Some(layers[j]));
        assert(layers[j].has_room(len));
    }
    assert(layers.skip(0) =~= layers);
    law_onion_cells_are_received(id, layers, cell);
}

/// An end of a circuit whose ciphers are in step receives the very cell that was put under the
/// layers, and is in step again afterwards.
pub proof fn law_onion_cells_are_received(
    id: CircuitId,
    layers: Seq<CipherView>,
    cell: RelayCellView,
)
    requires
        onion::have_room(layers, wire::put_relay_cell(cell).len()),
        cell.data.len() <= u64::MAX,
        wire::put_relay_cell(cell).len() <= u64::MAX,
    ensures
        ({
            let payload = wire::put_message(
                MessageView::TorCell(link::onion_cell(id, layers, cell)),
            );
            &&& link::received(layers, payload) == Ok::<_, ReceiveError>(cell)
            &&& forall|l: LinkView|
                l.backward == layers ==> #[trigger] l.after_receive(payload) == (LinkView {
                    backward: link::layers_after_cell(layers, cell),
                    ..l
                })
        }),
{
    let plain = wire::put_relay_cell(cell);
    onion::law_onion_round_trip(layers, plain);
    wire::law_relay_cell_round_trip(cell);
    wire::law_message_round_trip(MessageView::TorCell(link::onion_cell(id, layers, cell)));
}

/// Every hop shares a key of its own with the client. If the public key in the client's `Extend`
/// came, as `Create`, to a relay that answered it, then the relay that extends the circuit reports
/// that answer as `Extended`, and the client that receives the report adds a layer under the very key
/// of the new relay's circuit.
pub proof fn law_every_hop_shares_a_key(
    v: BuilderView,
    key: EphemeralPrivateKey,
    public: Seq<u8>,
    hop_before: ManagerView,
    id: CircuitId,
    hop_conn: ConnectionId,
    hop_after: ManagerView,
    answer: Seq<u8>,
    payload: Seq<u8>,
    other: Seq<u8>,
    report: Seq<u8>,
)
    requires
        crypto::ephemeral_public(key) == Some(public),
        relay::creates(hop_before, id, hop_conn, public, hop_after, Some(answer)),
        answer.len() <= packet::MAX_PACKET_LEN,
        packet::unframed(answer) == Ok::<_, packet::FrameError>(payload),
        client::first_answer(payload) == Ok::<_, BuildError>(other),
        link::received(v.link.backward, report) == Ok::<_, ReceiveError>(
            circuit::plain_relay_cell(0, RelayCommand::Extended, other),
        ),
    ensures
        ({
            let (after, r) = client::extended_result(v, key, report);
            let seen = v.link.after_receive(report);
            &&& r == Ok::<(), BuildError>(())
            &&& after.path == v.path
            &&& after.hops() == v.hops() + 1
            &&& after.link.forward.drop_last() == seen.forward
            &&& after.link.backward.drop_last() == seen.backward
            &&& hop_after.circuits[id].forward_cipher == Some(after.link.forward.last())
            &&& hop_after.circuits[id].backward_cipher == Some(after.link.backward.last())
        }),
        forall|m: ManagerView, conn: ConnectionId, addr: SocketAddr, next: ConnectionId|
            m.circuits.dom().contains(id) ==> (#[trigger] relay::extend_answered_step(
                m,
                id,
                conn,
                addr,
                next,
                payload,
            )).1 == relay::reply_step(
                CircuitView {
                    next_hop: Some(addr),
                    next_hop_stream: Some(next),
                    ..m.circuits[id]
                },
                conn,
                circuit::plain_relay_cell(0, RelayCommand::Extended, other),
                relay::replaced_hop(m.circuits[id], next),
            ).1,
{
    client::law_first_hop_shares_the_key(
        hop_before,
        id,
        hop_conn,
        key,
        public,
        v.path,
        hop_after,
        answer,
        payload,
    );
    let (after, r) = client::extended_result(v, key, report);
    let seen = v.link.after_receive(report);
    assert(after.link.forward.drop_last() =~= seen.forward);
    assert(after.link.backward.drop_last() =~= seen.backward);
}

/// The relays of a circuit after an `Extend` cell of so many bytes, and after the last of them was
/// joined to a new hop by that hop's answer.
pub open spec fn extended_path(
    relays: Seq<ManagerView>,
    id: CircuitId,
    len: nat,
    conn: ConnectionId,
    addr: SocketAddr,
    next: ConnectionId,
    payload: Seq<u8>,
) -> Seq<ManagerView> {
    Seq::new(
        relays.len(),
        |j: int|
            if j < relays.len() - 1 {
                moved_out(relays[j], id, len)
            } else {
                relay::extend_answered_step(
                    moved_out(relays[j], id, len),
                    id,
                    conn,
                    addr,
                    next,
                    payload,
                ).0
            },
    )
}

/// A circuit that is in step with its relays is in step with one relay more once it was extended: the
/// client's layers are the ciphers of the hops, each under its own key. Together with
/// `law_every_hop_shares_a_key` this holds of a circuit of any length.
pub proof fn law_extension_keeps_in_step(
    relays: Seq<ManagerView>,
    nexts: Seq<ConnectionId>,
    v: BuilderView,
    key: EphemeralPrivateKey,
    report: Seq<u8>,
    cell: RelayCellView,
    hop: ManagerView,
    conn: ConnectionId,
    addr: SocketAddr,
    next: ConnectionId,
    payload: Seq<u8>,
)
    requires
        leads_out(relays, v.link.circ_id, nexts, v.link.forward),
        nexts.len() >= relays.len() - 1,
        v.link.can_send(cell),
        wire::get_message(payload) matches Some(MessageView::TorCell(created)) && created.command
            == CellCommand::Created,
        ({
            let sent = BuilderView { link: v.link.sent(cell), ..v };
            let (after, r) = client::extended_result(sent, key, report);
            &&& r is Ok
            &&& hop.circuits.dom().contains(v.link.circ_id)
            &&& hop.circuits[v.link.circ_id].id == v.link.circ_id
            &&& hop.circuits[v.link.circ_id].forward_cipher == Some(after.link.forward.last())
        }),
    ensures
        ({
            let sent = BuilderView { link: v.link.sent(cell), ..v };
            let after = client::extended_result(sent, key, report).0;
            let path = extended_path(
                relays,
                v.link.circ_id,
                wire::put_relay_cell(cell).len(),
                conn,
                addr,
                next,
                payload,
            );
            leads_out(
                path.push(hop),
                v.link.circ_id,
                nexts.take(relays.len() - 1).push(next),
                after.link.forward,
            )
        }),
{
    let id = v.link.circ_id;
    let len = wire::put_relay_cell(cell).len();
    let sent = BuilderView { link: v.link.sent(cell), ..v };
    let after = client::extended_result(sent, key, report).0;
    let path = extended_path(relays, id, len, conn, addr, next, payload);
    let all = path.push(hop);
    let joined = nexts.take(relays.len() - 1).push(next);
    let layers = after.link.forward;
    let n = relays.len() as int;
    assert(layers.drop_last() =~= onion::layers_after(v.link.forward, len));
    assert forall|j: int| 0 <= j < all.len() implies (#[trigger] all[j]).circuits.dom().contains(id)
        && all[j].circuits[id].id == id && all[j].circuits[id].forward_cipher == Some(layers[j]) by {
        if j < n {
            assert(relays[j].circuits.dom().contains(id));
            assert(layers[j] == layers.drop_last()[j]);
            assert(layers[j] == v.link.forward[j].after(len));
        }
    }
    assert forall|j: int| 0 <= j < all.len() - 1 implies (
    #[trigger] all[j]).circuits[id].next_hop_stream == Some(joined[j]) by {
        assert(relays[j].circuits.dom().contains(id));
        if j < n - 1 {
            assert(relays[j].circuits[id].next_hop_stream == Some(nexts[j]));
        }
    }
}

} // verus!
