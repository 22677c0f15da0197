//! What holds of the two ends of a circuit between them: what is received, what ends a flow, and what
//! a relay passes back.

use crate::addr::SocketAddr;
use crate::bytes;
use crate::circuit;
use crate::circuit::{CircuitManager, ConnectionId};
use crate::crypto;
use crate::crypto::{CipherView, CircuitCipher};
use crate::exit_policy;
use crate::exit_policy::ExitPolicy;
use crate::link;
use crate::link::{Download, DownloadView, Link, LinkView, ReceiveError, Upload};
use crate::onion;
use crate::relay;
use crate::relay::{ActionView, Ending, Step};
use crate::wire;
use crate::wire::{
    CellCommand, CellView, CircuitId, MessageView, RelayCell, RelayCellView, RelayCommand,
};
use ring::agreement::EphemeralPrivateKey;
use vstd::prelude::*;

verus! {

/// What a client receives stands in a `Relay` cell, under all its layers, and nowhere else. Whatever
/// stands in the way is told apart.
pub proof fn law_only_relay_cells_are_received(
    l: &mut Link,
    payload: &[u8],
    r: Result<RelayCell, ReceiveError>,
)
    requires
        call_ensures(link::recv_relay_cell, (l, payload), r),
    ensures
        final(l)@.circ_id == old(l)@.circ_id,
        final(l)@.forward == old(l)@.forward,
        final(l)@.windows == old(l)@.windows,
        final(l)@.backward.len() == old(l)@.backward.len(),
        match wire::get_message(payload@) {
            None => r matches Err(e) && e == ReceiveError::Decode,
            Some(MessageView::Gossip(_)) => r matches Err(e) && e == ReceiveError::NotACell,
            Some(MessageView::TorCell(cell)) => match r {
                Ok(rc) => cell.command == CellCommand::Relay && wire::get_relay_cell(
                    onion::onion(old(l)@.backward, cell.payload),
                ) == Some(rc@) && forall|i: int|
                    0 <= i < old(l)@.backward.len() ==> (#[trigger] final(l)@.backward[i])
                        == old(l)@.backward[i].after(cell.payload.len()),
                Err(ReceiveError::Decode) => cell.command == CellCommand::Relay
                    && wire::get_relay_cell(onion::onion(old(l)@.backward, cell.payload)) is None,
                Err(ReceiveError::NotARelayCell) => cell.command != CellCommand::Relay,
                Err(ReceiveError::NotACell) => false,
                Err(ReceiveError::Exhausted) => cell.command == CellCommand::Relay && exists|i: int|
                    0 <= i < old(l)@.backward.len() && (#[trigger] old(l)@.backward[i]).used
                        + cell.payload.len() > 16 * 0xffff_ffff_ffff_ffff,
            },
        },
        r is Err && !(r matches Err(ReceiveError::Decode)) ==> final(l)@ == old(l)@,
{
}

/// While data flows, data is written whatever its stream, an `End` ends the flow, and other commands
/// do nothing. A `SendMe` opens one window: the circuit's, of stream zero, by 100 cells, or the
/// stream's by 50.
pub proof fn law_flows_follow_their_commands(l: &mut Link, rc: RelayCell, r: Download)
    requires
        call_ensures(link::flow, (l, rc), r),
    ensures
        final(l)@.circ_id == old(l)@.circ_id,
        final(l)@.backward == old(l)@.backward,
        match r@ {
            DownloadView::Write { data, .. } => rc.command == RelayCommand::Data && data
                == rc.data@,
            DownloadView::Stop => rc.command == RelayCommand::End,
            DownloadView::Skip => rc.command != RelayCommand::Data && rc.command
                != RelayCommand::End,
            DownloadView::Exhausted => rc.command == RelayCommand::Data,
        },
        rc.command == RelayCommand::Data || rc.command == RelayCommand::SendMe || final(l)@ == old(l)@,
        rc.command == RelayCommand::Data ==> {
            &&& final(l)@.windows.circuit_package == old(l)@.windows.circuit_package
            &&& final(l)@.windows.stream_package == old(l)@.windows.stream_package
        },
        rc.command == RelayCommand::SendMe ==> {
            let (w, v) = (old(l)@.windows, final(l)@.windows);
            &&& final(l)@.forward == old(l)@.forward
            &&& v.circuit_deliver == w.circuit_deliver
            &&& v.stream_deliver == w.stream_deliver
            &&& rc.stream_id != 0 ==> v.circuit_package == w.circuit_package
            &&& rc.stream_id != 1 ==> v.stream_package == w.stream_package
            &&& rc.stream_id == 0 ==> v.circuit_package == w.circuit_package + 100
                || w.circuit_package + 100 > 65535 && v.circuit_package == 65535
            &&& rc.stream_id == 1 ==> v.stream_package == w.stream_package + 50 || w.stream_package
                + 50 > 65535 && v.stream_package == 65535
        },
{
}

/// What is no relay cell is passed over by a client, and ends the flow to a service. What is one is
/// taken by either.
pub proof fn law_noise_ends_a_service_and_not_a_client(
    a: &mut Link,
    b: &mut Link,
    payload: &[u8],
    x: Download,
    y: Download,
)
    requires
        call_ensures(link::download, (a, payload), x),
        call_ensures(link::serve, (b, payload), y),
        old(a)@ == old(b)@,
    ensures
        final(a)@ == final(b)@,
        match link::received(old(a)@.backward, payload@) {
            Ok(_) => x@ == y@,
            Err(ReceiveError::Exhausted) => x@ is Exhausted && y@ is Exhausted,
            Err(_) => x@ is Skip && y@ is Stop,
        },
{
}

/// A relay passes back what the next hop of a circuit sends on it, under one more layer and under the
/// same number, towards the client. From any other connection, for any other circuit and of any other
/// command it passes nothing.
pub proof fn law_only_the_next_hop_is_passed_back(
    manager: &mut CircuitManager,
    next: ConnectionId,
    payload: &[u8],
    cell: CellView,
    r: Step,
)
    requires
        call_ensures(relay::handle_return, (manager, next, payload), r),
        circuit::numbered(old(manager)@),
        wire::get_message(payload@) is Some ==> wire::get_message(payload@) == Some(
            MessageView::TorCell(cell),
        ) || wire::get_message(payload@).unwrap() is Gossip,
    ensures
        ({
            let m = old(manager)@;
            let c = m.circuits[cell.circ_id];
            let ours = wire::get_message(payload@) == Some(MessageView::TorCell(cell))
                && cell.command == CellCommand::Relay && m.circuits.dom().contains(cell.circ_id)
                && c.next_hop_stream == Some(next) && c.prev_hop_stream is Some
                && c.backward_cipher is Some;
            &&& !ours ==> r@.actions.len() == 0 && r@.end == Ending::Continue && final(manager)@
                == m
            &&& ours && r@.end == Ending::Continue ==> {
                let layer = c.backward_cipher.unwrap();
                let back = CellView {
                    circ_id: cell.circ_id,
                    command: CellCommand::Relay,
                    payload: layer.output(cell.payload),
                };
                &&& r@.actions.len() == 1
                &&& r@.actions[0] == (ActionView::Send {
                    conn: c.prev_hop_stream.unwrap(),
                    packet: wire::cell_packet(back),
                })
                &&& final(manager)@.circuits.dom() == m.circuits.dom()
                &&& final(manager)@.circuits[cell.circ_id].backward_cipher == Some(
                    layer.after(cell.payload.len()),
                )
                &&& final(manager)@.circuits[cell.circ_id].forward_cipher == c.forward_cipher
                &&& final(manager)@.circuits[cell.circ_id].streams == c.streams
            }
            &&& ours && r@.end != Ending::Continue ==> r@.actions.len() == 0 && final(manager)@
                == m && c.backward_cipher.unwrap().used + cell.payload.len() > 16
                * 0xffff_ffff_ffff_ffff
        }),
{
    assert(old(manager)@.circuits.dom().contains(cell.circ_id)
        ==> old(manager)@.circuits.dom().insert(cell.circ_id) =~= old(manager)@.circuits.dom());
}

/// A destination is dialed at the first of its IPv4 addresses, where the policy accepts that one, and
/// not at all otherwise.
pub proof fn law_the_first_ipv4_address_counts(
    policy: &ExitPolicy,
    list: &[SocketAddr],
    r: Option<SocketAddr>,
    n: int,
)
    requires
        call_ensures(relay::choose_exit, (policy, Some(list)), r),
        0 <= n <= list@.len(),
        forall|i: int| 0 <= i < n ==> (#[trigger] list@[i]) is V6,
        n < list@.len() ==> list@[n] is V4,
    ensures
        n == list@.len() ==> r is None,
        n < list@.len() ==> match list@[n] {
            SocketAddr::V4 { ip, port } => r == if exit_policy::verdict(policy@, ip, port)
                == exit_policy::PolicyAction::Accept {
                Some(list@[n])
            } else {
                None
            },
            SocketAddr::V6 { .. } => true,
        },
{
    lemma_skip_ipv6(list@, n);
}

proof fn lemma_skip_ipv6(list: Seq<SocketAddr>, n: int)
    requires
        0 <= n <= list.len(),
        forall|i: int| 0 <= i < n ==> (#[trigger] list[i]) is V6,
        n < list.len() ==> list[n] is V4,
    ensures
        n == list.len() ==> relay::first_ipv4(list) is None,
        n < list.len() ==> (list[n] matches SocketAddr::V4 { ip, port } && relay::first_ipv4(list)
            == Some((ip, port))),
    decreases n,
{
    if n > 0 {
        assert(list[0] is V6);
        let rest = list.drop_first();
        assert forall|i: int| 0 <= i < n - 1 implies (#[trigger] rest[i]) is V6 by {
            assert(rest[i] == list[i + 1]);
        }
        lemma_skip_ipv6(rest, n - 1);
    }
}

/// A cipher begins at the start of its keystream, and each byte is combined with the next one of it.
pub proof fn law_ciphers_begin_at_the_start(
    key: [u8; 32],
    c: CircuitCipher,
    data: Seq<u8>,
    before: nat,
    i: int,
)
    requires
        call_ensures(CircuitCipher::new, (key,), c),
        0 <= i < data.len(),
    ensures
        c@.key == key@,
        c@.used == 0,
        c@.after(before).output(data)[i] == data[i] ^ crypto::aes256_ctr_keystream(
            key@,
            (before + i) as nat,
        ),
{
}

/// The key of a circuit is the SHA-256 digest of the secret that the two ends agree on.
pub proof fn law_circuit_keys_are_digests(
    secret: &[u8],
    r: [u8; 32],
    key: EphemeralPrivateKey,
    peer: Seq<u8>,
)
    requires
        call_ensures(crypto::circuit_key, (secret,), r),
    ensures
        r@ == crypto::sha256(secret@),
        crypto::ephemeral_agreement(key, peer) == Some(secret@) ==> crypto::agreed_key(key, peer)
            == Some(r@),
        crypto::ephemeral_agreement(key, peer) is None ==> crypto::agreed_key(key, peer) is None,
{
}

/// A relay cell can be sent as long as every layer lasts for its bytes: twenty, and those of its data.
pub proof fn law_cells_are_sent_while_the_layers_last(
    l: LinkView,
    cell: RelayCellView,
    b: Option<CipherView>,
)
    ensures
        l.can_send(cell) <==> forall|i: int|
            0 <= i < l.forward.len() ==> (#[trigger] l.forward[i]).used + 20 + cell.data.len() <= 16
                * 0xffff_ffff_ffff_ffff,
        circuit::can_seal(b, cell) <==> (b is None || b.unwrap().used + 20 + cell.data.len() <= 16
            * 0xffff_ffff_ffff_ffff),
{
    lemma_relay_cell_len(cell);
}

/// What a relay seals for a client is the relay cell under the layer of the way back, and in the clear
/// where there is none, in a `Relay` cell of the circuit.
pub proof fn law_relays_seal_with_their_own_layer(
    id: CircuitId,
    b: Option<CipherView>,
    cell: RelayCellView,
    payload: Seq<u8>,
)
    requires
        payload.len() == wire::put_relay_cell(cell).len(),
        forall|i: int|
            0 <= i < payload.len() ==> #[trigger] payload[i] == match b {
                Some(c) => wire::put_relay_cell(cell)[i] ^ crypto::aes256_ctr_keystream(
                    c.key,
                    (c.used + i) as nat,
                ),
                None => wire::put_relay_cell(cell)[i],
            },
    ensures
        circuit::sealed_packet(id, b, cell) == wire::cell_packet(
            CellView { circ_id: id, command: CellCommand::Relay, payload },
        ),
        b matches Some(c) ==> circuit::cipher_after(b, cell) == Some(c.after(payload.len())),
        b is None ==> circuit::cipher_after(b, cell) is None,
{
    match b {
        Some(c) => {
            assert(c.output(wire::put_relay_cell(cell)) =~= payload);
        },
        None => {
            assert(wire::put_relay_cell(cell) =~= payload);
        },
    }
}

/// What a client sends for data that it receives: where a hundred cells have come on the circuit, an
/// acknowledgement on stream zero, and where fifty have come on the stream, one on stream one. The
/// windows count every cell and every acknowledgement.
pub proof fn law_received_data_is_acknowledged(
    l: &mut Link,
    rc: RelayCell,
    r: Download,
    of_circuit: RelayCellView,
    of_stream: RelayCellView,
)
    requires
        call_ensures(link::flow, (l, rc), r),
        rc.command == RelayCommand::Data,
        r@ is Write,
        of_circuit.stream_id == 0,
        of_circuit.recognized == 0,
        of_circuit.digest == 0,
        of_circuit.command == RelayCommand::SendMe,
        of_circuit.data.len() == 0,
        of_stream.stream_id == 1,
        of_stream.recognized == 0,
        of_stream.digest == 0,
        of_stream.command == RelayCommand::SendMe,
        of_stream.data.len() == 0,
    ensures
        ({
            let w = old(l)@.windows;
            let circuit_low = w.circuit_deliver <= 901;
            let stream_low = w.stream_deliver <= 451;
            let mid = if circuit_low {
                old(l)@.sent(of_circuit)
            } else {
                old(l)@
            };
            let first = if circuit_low {
                seq![old(l)@.packet(of_circuit)]
            } else {
                Seq::empty()
            };
            let second = if stream_low {
                seq![mid.packet(of_stream)]
            } else {
                Seq::empty()
            };
            &&& r@ matches DownloadView::Write { data, answers } && data == rc.data@ && answers
                == first + second
            &&& final(l)@.forward == if stream_low {
                mid.sent(of_stream).forward
            } else {
                mid.forward
            }
            &&& final(l)@.windows.circuit_deliver == w.circuit_deliver - 1 + if circuit_low {
                100int
            } else {
                0int
            }
            &&& final(l)@.windows.stream_deliver == w.stream_deliver - 1 + if stream_low {
                50int
            } else {
                0int
            }
        }),
{
    assert(of_circuit == circuit::sendme(0)) by {
        assert(of_circuit.data =~= Seq::<u8>::empty());
    }
    assert(of_stream == circuit::sendme(1)) by {
        assert(of_stream.data =~= Seq::<u8>::empty());
    }
}

/// Data of a local connection goes out, whole, in a `Data` cell on stream one, and both windows count
/// it. Through a closed window it does not.
pub proof fn law_uploads_are_data_cells(
    l: &mut Link,
    data: &[u8],
    r: Upload,
    cell: RelayCellView,
)
    requires
        call_ensures(link::upload_packet, (l, data), r),
        cell.stream_id == 1,
        cell.recognized == 0,
        cell.digest == 0,
        cell.command == RelayCommand::Data,
        cell.data == data@,
    ensures
        ({
            let w = old(l)@.windows;
            let v = final(l)@.windows;
            match r {
                Upload::Packet(packet) => {
                    &&& w.circuit_package > 0
                    &&& w.stream_package > 0
                    &&& old(l)@.can_send(cell)
                    &&& packet@ == old(l)@.packet(cell)
                    &&& v.circuit_package == w.circuit_package - 1
                    &&& v.stream_package == w.stream_package - 1
                    &&& v.circuit_deliver == w.circuit_deliver
                    &&& v.stream_deliver == w.stream_deliver
                    &&& final(l)@.forward == old(l)@.sent(cell).forward
                    &&& final(l)@.backward == old(l)@.backward
                    &&& final(l)@.circ_id == old(l)@.circ_id
                },
                Upload::Wait => (w.circuit_package == 0 || w.stream_package == 0) && final(l)@
                    == old(l)@,
                Upload::Exhausted => w.circuit_package > 0 && w.stream_package > 0 && !old(l)@.can_send(cell) && final(l)@ == old(l)@,
            }
        }),
{
    assert(cell == link::data_cell(data@));
}

/// Sending moves every layer of the way out by the length of the relay cell, and nothing else. What is
/// sent is a `Relay` cell of the circuit; each hop in turn takes its own layer off, and the relay cell
/// is what is left.
pub proof fn law_sending_moves_every_layer(l: &mut Link, cell: &RelayCell, r: Option<Vec<u8>>)
    requires
        call_ensures(link::send_relay_cell, (l, cell), r),
    ensures
        final(l)@.circ_id == old(l)@.circ_id,
        final(l)@.backward == old(l)@.backward,
        final(l)@.windows == old(l)@.windows,
        final(l)@.forward.len() == old(l)@.forward.len(),
        r is None ==> final(l)@ == old(l)@ && exists|i: int|
            0 <= i < old(l)@.forward.len() && (#[trigger] old(l)@.forward[i]).used + 20
                + cell.data@.len() > 16 * 0xffff_ffff_ffff_ffff,
        r matches Some(packet) ==> {
            &&& forall|i: int|
                0 <= i < old(l)@.forward.len() ==> (#[trigger] final(l)@.forward[i]) == old(l)@.forward[i].after(20 + cell.data@.len())
            &&& exists|payload: Seq<u8>|
                {
                    &&& packet@ == #[trigger] wire::cell_packet(
                        CellView { circ_id: old(l)@.circ_id, command: CellCommand::Relay, payload },
                    )
                    &&& onion::onion(old(l)@.forward, payload) == wire::put_relay_cell(cell@)
                }
        },
{
    law_cells_are_sent_while_the_layers_last(old(l)@, cell@, None);
    lemma_relay_cell_len(cell@);
    if r is Some {
        let payload = onion::onion(old(l)@.forward, wire::put_relay_cell(cell@));
        onion::law_onion_round_trip(old(l)@.forward, wire::put_relay_cell(cell@));
        assert(r.unwrap()@ == wire::cell_packet(
            CellView { circ_id: old(l)@.circ_id, command: CellCommand::Relay, payload },
        ));
    }
}

proof fn lemma_relay_cell_len(cell: RelayCellView)
    ensures
        wire::put_relay_cell(cell).len() == 20 + cell.data.len(),
{
    bytes::lemma_le_len(cell.stream_id as nat, 2);
    bytes::lemma_le_len(cell.recognized as nat, 2);
    bytes::lemma_le_len(cell.digest as nat, 4);
    bytes::lemma_le_len(cell.command.spec_index() as nat, 4);
    bytes::lemma_le_len(cell.data.len(), 8);
}

} // verus!
