//! What building a circuit comes to, call by call and over a whole path.

use crate::addr::SocketAddr;
use crate::client;
use crate::client::{BuildError, BuilderView, CircuitBuilder, CircuitOffer};
use crate::crypto;
use crate::link;
use crate::link::{Link, ReceiveError};
use crate::packet;
use crate::relay;
use crate::wire;
use crate::wire::{CellCommand, CircuitId, MessageView, RelayCellView, RelayCommand};
use ring::agreement::EphemeralPrivateKey;
use vstd::prelude::*;

verus! {

/// Whether the data of an `Extend` cell names an address and carries a public key: four octets, the
/// port with its high byte first, and the key.
pub open spec fn names_hop(data: Seq<u8>, addr: SocketAddr, public: Seq<u8>) -> bool {
    match addr {
        SocketAddr::V4 { ip, port } => {
            &&& data.len() == 6 + public.len()
            &&& data[0] == ip.a
            &&& data[1] == ip.b
            &&& data[2] == ip.c
            &&& data[3] == ip.d
            &&& data[4] as int * 256 + data[5] as int == port
            &&& forall|i: int| 0 <= i < public.len() ==> data[6 + i] == #[trigger] public[i]
        },
        SocketAddr::V6 { .. } => false,
    }
}

proof fn lemma_names_hop(ip: crate::addr::Ipv4Addr, port: u16, public: Seq<u8>)
    ensures
        names_hop(
            client::extend_data(ip, port, public),
            SocketAddr::V4 { ip, port },
            public,
        ),
{
    let data = client::extend_data(ip, port, public);
    assert(data[4] == (port / 256) as u8);
    assert(data[5] == (port % 256) as u8);
    assert(port as int == (port as int / 256) * 256 + port as int % 256);
    assert forall|i: int| 0 <= i < public.len() implies data[6 + i] == #[trigger] public[i] by {
    }
}

/// Where `h` hops have answered, the circuit is extended to hop `h` of the path and to no other: the
/// cell that goes out, through the layers of the hops so far, names the address and port of that hop
/// and carries the public key that was made for it.
pub proof fn law_extend_names_the_next_hop(
    b: &mut CircuitBuilder,
    key: Option<EphemeralPrivateKey>,
    r: Result<(EphemeralPrivateKey, Vec<u8>), BuildError>,
)
    requires
        old(b)@.link.forward.len() < old(b)@.path.len(),
        call_ensures(CircuitBuilder::extend_with, (b, key), r),
    ensures
        match r {
            Ok((k, sent)) => {
                &&& key == Some(k)
                &&& crypto::ephemeral_public(k) is Some
                &&& final(b)@.path == old(b)@.path
                &&& final(b)@.link.forward.len() == old(b)@.link.forward.len()
                &&& final(b)@.link.backward == old(b)@.link.backward
                &&& final(b)@.link.circ_id == old(b)@.link.circ_id
                &&& exists|cell: RelayCellView|
                    {
                        &&& sent@ == #[trigger] link::onion_packet(
                            old(b)@.link.circ_id,
                            old(b)@.link.forward,
                            cell,
                        )
                        &&& cell.command == RelayCommand::Extend
                        &&& cell.stream_id == 0
                        &&& cell.recognized == 0
                        &&& cell.digest == 0
                        &&& names_hop(
                            cell.data,
                            old(b)@.path[old(b)@.link.forward.len() as int],
                            crypto::ephemeral_public(k).unwrap(),
                        )
                    }
            },
            Err(e) => {
                &&& final(b)@ == old(b)@
                &&& (e == BuildError::Ipv6NotSupported) == (old(b)@.path[old(b)@.link.forward.len() as int] is V6)
                &&& e == BuildError::Ipv6NotSupported || e == BuildError::Exhausted || (e
                    == BuildError::Keygen && (key matches Some(k) ==> crypto::ephemeral_public(
                    k,
                ) is None))
            },
        },
{
    let v = old(b)@;
    match r {
        Ok((k, sent)) => {
            match v.path[v.link.forward.len() as int] {
                SocketAddr::V4 { ip, port } => {
                    let public = crypto::ephemeral_public(k).unwrap();
                    lemma_names_hop(ip, port, public);
                    let cell = client::extend_cell(ip, port, public);
                    assert(sent@ == link::onion_packet(v.link.circ_id, v.link.forward, cell));
                },
                SocketAddr::V6 { .. } => {},
            }
        },
        Err(_) => {},
    }
}

/// One hop of a build: from the circuit before, over the packet that extends it, to the circuit after.
pub ghost struct Stage {
    pub before: BuilderView,
    pub key: EphemeralPrivateKey,
    pub packet: Seq<u8>,
    pub report: Seq<u8>,
    pub after: BuilderView,
}

/// Whether a stage is one successful `extend` and one successful `extended`.
pub open spec fn is_stage(s: Stage) -> bool {
    let (sent, r) = client::extend_result(s.before, Some(s.key));
    &&& s.before.link.forward.len() < s.before.path.len()
    &&& r == Ok::<(EphemeralPrivateKey, Seq<u8>), BuildError>((s.key, s.packet))
    &&& client::extended_result(sent, s.key, s.report) == (s.after, Ok::<(), BuildError>(()))
}

/// Whether stages follow one another.
pub open spec fn are_stages(stages: Seq<Stage>) -> bool {
    &&& forall|i: int| 0 <= i < stages.len() ==> is_stage(#[trigger] stages[i])
    &&& forall|i: int, j: int|
        0 <= i && j == i + 1 && j < stages.len() ==> #[trigger] stages[i].after
            == #[trigger] stages[j].before
}

/// Whether a packet carries an `Extend` cell that names an address.
pub open spec fn extends_to(s: Stage, addr: SocketAddr) -> bool {
    exists|cell: RelayCellView|
        {
            &&& s.packet == #[trigger] link::onion_packet(
                s.before.link.circ_id,
                s.before.link.forward,
                cell,
            )
            &&& cell.command == RelayCommand::Extend
            &&& crypto::ephemeral_public(s.key) matches Some(public) && names_hop(
                cell.data,
                addr,
                public,
            )
        }
}

/// Over a whole build every hop of the path is visited once and in order: the first one by `Create`,
/// and stage `i` after it extends the circuit to hop `i + 1` of the path. The circuit then has as many
/// layers as hops have answered, and the path never changes.
pub proof fn law_builds_follow_the_path(stages: Seq<Stage>, path: Seq<SocketAddr>, i: int)
    requires
        are_stages(stages),
        stages.len() > 0,
        stages[0].before.path == path,
        stages[0].before.link.forward.len() == 1,
        0 <= i < stages.len(),
    ensures
        i + 1 < path.len(),
        extends_to(stages[i], path[i + 1]),
        stages[i].before.path == path,
        stages[i].after.path == path,
        stages[i].before.link.forward.len() == i + 1,
        stages[i].after.link.forward.len() == i + 2,
        stages[i].after.link.backward.len() == stages[i].before.link.backward.len() + 1,
    decreases i,
{
    if i > 0 {
        law_builds_follow_the_path(stages, path, i - 1);
        assert(stages[i - 1].after == stages[i].before);
    }
    let s = stages[i];
    assert(is_stage(s));
    match s.before.path[s.before.link.forward.len() as int] {
        SocketAddr::V4 { ip, port } => {
            let public = crypto::ephemeral_public(s.key).unwrap();
            lemma_names_hop(ip, port, public);
            let cell = client::extend_cell(ip, port, public);
            assert(s.packet == link::onion_packet(s.before.link.circ_id, s.before.link.forward, cell));
        },
        SocketAddr::V6 { .. } => {},
    }
}

/// An answer to `Extend` that succeeds adds one hop at the far end, under the key that was agreed on
/// with the public key in the answer, and leaves the hops before as they are. One that fails adds none.
pub proof fn law_extended_adds_one_hop(
    b: &mut CircuitBuilder,
    key: EphemeralPrivateKey,
    payload: &[u8],
    r: Result<(), BuildError>,
)
    requires
        old(b)@.link.forward.len() < old(b)@.path.len(),
        call_ensures(CircuitBuilder::extended, (b, key, payload), r),
    ensures
        final(b)@.path == old(b)@.path,
        final(b)@.link.circ_id == old(b)@.link.circ_id,
        final(b)@.link.windows == old(b)@.link.windows,
        match r {
            Ok(_) => {
                let n = old(b)@.link.forward.len() as int;
                let m = old(b)@.link.backward.len() as int;
                &&& final(b)@.link.forward.len() == n + 1
                &&& final(b)@.link.backward.len() == m + 1
                &&& final(b)@.link.forward.take(n) == old(b)@.link.forward
                &&& forall|i: int|
                    0 <= i < m ==> (#[trigger] final(b)@.link.backward[i]).key == old(b)@.link.backward[i].key
                &&& link::received(old(b)@.link.backward, payload@) matches Ok(rc) && rc.command
                    == RelayCommand::Extended && crypto::agreed_key(key, rc.data) == Some(
                    final(b)@.link.forward[n].key,
                )
                &&& final(b)@.link.backward[m].key == final(b)@.link.forward[n].key
                &&& final(b)@.link.forward[n].used == 0
                &&& final(b)@.link.backward[m].used == 0
            },
            Err(_) => final(b)@.link.forward == old(b)@.link.forward && final(b)@.link.backward.len() == old(b)@.link.backward.len(),
        },
{
    if r is Ok {
        let n = old(b)@.link.forward.len() as int;
        assert(final(b)@.link.forward.take(n) =~= old(b)@.link.forward);
    }
}

/// The hop that is dialed is the first one of the path.
pub proof fn law_the_first_hop_is_dialed(path: &[SocketAddr], r: Result<SocketAddr, BuildError>)
    requires
        call_ensures(client::first_hop, (path,), r),
    ensures
        match r {
            Ok(addr) => path@.len() > 0 && path@.take(1) == seq![addr],
            Err(e) => path@.len() == 0 && e == BuildError::EmptyPath,
        },
{
    if path@.len() > 0 {
        assert(path@.take(1) =~= seq![path@[0]]);
    }
}

/// A circuit begins with one packet: any relay reads from it a `Create` cell with the circuit's number
/// and, in 32 bytes, the public key of the offer. The offer keeps the whole path.
pub proof fn law_circuits_begin_with_create(
    circ_id: CircuitId,
    path: Vec<SocketAddr>,
    r: Result<(CircuitOffer, Vec<u8>), BuildError>,
    rest: Seq<u8>,
)
    requires
        call_ensures(client::establish_circuit, (circ_id, path), r),
    ensures
        path@.len() == 0 ==> r == Err::<(CircuitOffer, Vec<u8>), _>(BuildError::EmptyPath),
        match r {
            Ok((offer, sent)) => {
                &&& offer.circ_id == circ_id
                &&& offer.path@ == path@
                &&& packet::unframed(sent@ + rest) matches Ok(payload) && wire::get_message(
                    payload,
                ) matches Some(MessageView::TorCell(cell)) && cell.circ_id == circ_id
                    && cell.command == CellCommand::Create && cell.payload.len() == 32 && Some(
                    cell.payload,
                ) == crypto::ephemeral_public(offer.key)
            },
            Err(_) => true,
        },
{
    match r {
        Ok((offer, sent)) => {
            let public = crypto::ephemeral_public(offer.key).unwrap();
            let v = MessageView::TorCell(
                wire::CellView { circ_id, command: CellCommand::Create, payload: public },
            );
            lemma_small_message(circ_id, CellCommand::Create, public);
            wire::law_packet_carries_message(v, rest);
        },
        Err(_) => {},
    }
}

proof fn lemma_small_message(circ_id: CircuitId, command: CellCommand, payload: Seq<u8>)
    requires
        payload.len() <= 1000,
    ensures
        wire::put_message(
            MessageView::TorCell(wire::CellView { circ_id, command, payload }),
        ).len() == 20 + payload.len(),
{
    crate::bytes::lemma_le_len(1, 4);
    crate::bytes::lemma_le_len(circ_id as nat, 4);
    crate::bytes::lemma_le_len(command.spec_index() as nat, 4);
    crate::bytes::lemma_le_len(payload.len(), 8);
}

/// The first hop that answers makes a circuit of one hop: the whole path is kept, both directions are
/// under the agreed key from its beginning, and a thousand cells of data, or five hundred on a stream,
/// may be under way.
pub proof fn law_the_first_answer_makes_one_hop(
    offer: CircuitOffer,
    payload: &[u8],
    r: Result<CircuitBuilder, BuildError>,
)
    requires
        call_ensures(CircuitOffer::answered, (offer, payload), r),
    ensures
        match r {
            Ok(b) => {
                &&& wire::get_message(payload@) matches Some(MessageView::TorCell(cell))
                    && crypto::agreed_key(offer.key, cell.payload) == Some(b@.link.forward[0].key)
                &&& b@.path == offer.path@
                &&& b@.link.circ_id == offer.circ_id
                &&& b@.link.forward.len() == 1
                &&& b@.link.backward == b@.link.forward
                &&& b@.link.forward[0].used == 0
                &&& b@.link.windows.circuit_package == 1000
                &&& b@.link.windows.circuit_deliver == 1000
                &&& b@.link.windows.stream_package == 500
                &&& b@.link.windows.stream_deliver == 500
            },
            Err(_) => wire::get_message(payload@) matches Some(MessageView::TorCell(cell))
                ==> crypto::agreed_key(offer.key, cell.payload) is None,
        },
{
}

/// A circuit is complete when it has a layer for every hop of its path, and what is finished is the
/// circuit as it was built.
pub proof fn law_complete_circuits_have_every_layer(
    b: &CircuitBuilder,
    done: bool,
    taken: CircuitBuilder,
    link: Link,
)
    requires
        call_ensures(CircuitBuilder::is_complete, (b,), done),
        call_ensures(CircuitBuilder::finish, (taken,), link),
    ensures
        done ==> b@.link.forward.len() >= b@.path.len(),
        !done ==> b@.link.forward.len() < b@.path.len(),
        link@.forward == taken@.link.forward,
        link@.backward == taken@.link.backward,
        link@.circ_id == taken@.link.circ_id,
        link@.windows == taken@.link.windows,
{
}

/// A relay that is handed the data of an `Extend` cell dials the hop that it names, and hands on the
/// public key in a `Create` cell under the circuit's number.
pub proof fn law_relays_dial_the_named_hop(
    c: crate::circuit::CircuitView,
    data: Seq<u8>,
    addr: SocketAddr,
    public: Seq<u8>,
)
    requires
        names_hop(data, addr, public),
    ensures
        relay::extend_step(c, data).actions == seq![
            relay::ActionView::Extend {
                circ_id: c.id,
                addr,
                packet: wire::cell_packet(
                    wire::CellView {
                        circ_id: c.id,
                        command: CellCommand::Create,
                        payload: public,
                    },
                ),
            },
        ],
{
    assert(data.skip(6) =~= public);
}

/// A relay that is handed less than an address and a port dials nothing.
pub proof fn law_short_extends_dial_nothing(c: crate::circuit::CircuitView, data: Seq<u8>)
    requires
        data.len() < 6,
    ensures
        relay::extend_step(c, data).actions == Seq::<relay::ActionView>::empty(),
        relay::extend_step(c, data).end == relay::Ending::Continue,
{
}

/// An answer to `Extend` is refused for one reason, and only where there is one: what is no message,
/// no cell, no relay cell, no `Extended`, or holds no key to agree on is told apart.
pub proof fn law_extensions_fail_for_a_reason(
    b: &mut CircuitBuilder,
    key: EphemeralPrivateKey,
    payload: &[u8],
    r: Result<(), BuildError>,
)
    requires
        old(b)@.link.forward.len() < old(b)@.path.len(),
        call_ensures(CircuitBuilder::extended, (b, key, payload), r),
    ensures
        match link::received(old(b)@.link.backward, payload@) {
            Ok(rc) => match r {
                Ok(_) => rc.command == RelayCommand::Extended,
                Err(BuildError::UnexpectedRelayCommand) => rc.command != RelayCommand::Extended,
                Err(e) => e == BuildError::Handshake && rc.command == RelayCommand::Extended
                    && crypto::agreed_key(key, rc.data) is None,
            },
            Err(ReceiveError::Decode) => r == Err::<(), _>(BuildError::Decode),
            Err(ReceiveError::NotACell) => r == Err::<(), _>(BuildError::UnexpectedMessage),
            Err(ReceiveError::NotARelayCell) => r == Err::<(), _>(BuildError::UnexpectedCell),
            Err(ReceiveError::Exhausted) => r == Err::<(), _>(BuildError::Exhausted),
        },
{
}

/// The first hop's answer is refused for one reason, and only where there is one.
pub proof fn law_first_answers_fail_for_a_reason(
    offer: CircuitOffer,
    payload: &[u8],
    r: Result<CircuitBuilder, BuildError>,
)
    requires
        call_ensures(CircuitOffer::answered, (offer, payload), r),
    ensures
        match wire::get_message(payload@) {
            None => r matches Err(e) && e == BuildError::Decode,
            Some(MessageView::Gossip(_)) => r matches Err(e) && e == BuildError::InvalidResponse,
            Some(MessageView::TorCell(cell)) => match r {
                Ok(_) => crypto::agreed_key(offer.key, cell.payload) is Some,
                Err(e) => e == BuildError::Handshake && crypto::agreed_key(
                    offer.key,
                    cell.payload,
                ) is None,
            },
        },
{
}

/// A circuit is not extended for one reason: a hop of IPv6, a key that cannot be made, or a keystream
/// that is used up. Then it stays as it was.
pub proof fn law_extends_fail_for_a_reason(
    b: &mut CircuitBuilder,
    key: Option<EphemeralPrivateKey>,
    r: Result<(EphemeralPrivateKey, Vec<u8>), BuildError>,
)
    requires
        old(b)@.link.forward.len() < old(b)@.path.len(),
        call_ensures(CircuitBuilder::extend_with, (b, key), r),
    ensures
        ({
            let addr = old(b)@.path[old(b)@.link.forward.len() as int];
            match r {
                Ok((k, _)) => addr is V4 && key == Some(k) && crypto::ephemeral_public(k) is Some,
                Err(e) => {
                    &&& final(b)@ == old(b)@
                    &&& addr is V6 <==> e == BuildError::Ipv6NotSupported
                    &&& addr is V4 && (key is None || crypto::ephemeral_public(key.unwrap()) is None)
                        <==> e == BuildError::Keygen
                    &&& e == BuildError::Ipv6NotSupported || e == BuildError::Keygen || e
                        == BuildError::Exhausted
                },
            }
        }),
{
}

} // verus!
