//! Building a circuit from the client's side, hop by hop.

use crate::addr::SocketAddr;
use crate::bytes;
use crate::circuit;
use crate::circuit::{CircuitView, ConnectionId, ManagerView};
use crate::crypto;
use crate::link;
use crate::link::{Link, LinkView, ReceiveError};
use crate::relay;
use crate::text;
use crate::wire;
use crate::wire::{
    Cell, CellCommand, CellView, CircuitId, Message, MessageView, RelayCell, RelayCellView,
    RelayCommand,
};
use ring::agreement::EphemeralPrivateKey;
use vstd::prelude::*;

verus! {

/// Why a circuit could not be built.
#[derive(Debug, Clone, Copy, PartialEq, Eq, Structural)]
pub enum BuildError {
    /// There is no hop to build to.
    EmptyPath,
    /// No key could be made.
    Keygen,
    /// The first hop's answer is no cell.
    InvalidResponse,
    /// No key could be agreed on with a hop.
    Handshake,
    /// A later hop has an IPv6 address, which an `Extend` cell cannot carry.
    Ipv6NotSupported,
    /// An answer could not be decoded.
    Decode,
    /// The answer to `Extend` is something else than `Extended`.
    UnexpectedRelayCommand,
    /// The answer to `Extend` is a cell with another command than `Relay`.
    UnexpectedCell,
    /// The answer to `Extend` is no cell.
    UnexpectedMessage,
    /// The keystream is used up.
    Exhausted,
}

/// A circuit of which no hop has answered yet.
pub struct CircuitOffer {
    pub circ_id: CircuitId,
    pub path: Vec<SocketAddr>,
    pub key: EphemeralPrivateKey,
}

/// A circuit of which some hops have answered: as many as the link has layers.
pub struct CircuitBuilder {
    pub path: Vec<SocketAddr>,
    pub link: Link,
}

/// A `CircuitBuilder` as a mathematical value.
pub ghost struct BuilderView {
    pub path: Seq<SocketAddr>,
    pub link: LinkView,
}

impl BuilderView {
    /// How many hops have answered.
    pub open spec fn hops(self) -> nat {
        self.link.forward.len()
    }
}

impl View for CircuitBuilder {
    type V = BuilderView;

    open spec fn view(&self) -> BuilderView {
        BuilderView { path: self.path@, link: self.link@ }
    }
}

/// The words in which an error is reported. What cannot be decoded has no words here: they are the
/// decoder's own.
pub open spec fn build_message(e: BuildError) -> Option<Seq<char>> {
    match e {
        BuildError::EmptyPath => Some("Empty path"@),
        BuildError::Keygen => Some("Keygen fail"@),
        BuildError::InvalidResponse => Some("Invalid response"@),
        BuildError::Handshake => Some("Handshake fail"@),
        BuildError::Ipv6NotSupported => Some("IPv6 not supported"@),
        BuildError::Decode => None,
        BuildError::UnexpectedRelayCommand => Some("Unexpected relay command"@),
        BuildError::UnexpectedCell => Some("Unexpected cell"@),
        BuildError::UnexpectedMessage => Some("Unexpected message"@),
        BuildError::Exhausted => Some("Keystream exhausted"@),
    }
}

impl BuildError {
    pub fn message(&self) -> (r: Option<String>)
        ensures
            match build_message(*self) {
                Some(words) => r matches Some(text) && text@ == words,
                None => r is None,
            },
    {
        let words = match self {
            BuildError::EmptyPath => "Empty path",
            BuildError::Keygen => "Keygen fail",
            BuildError::InvalidResponse => "Invalid response",
            BuildError::Handshake => "Handshake fail",
            BuildError::Ipv6NotSupported => "IPv6 not supported",
            BuildError::Decode => {
                return None;
            },
            BuildError::UnexpectedRelayCommand => "Unexpected relay command",
            BuildError::UnexpectedCell => "Unexpected cell",
            BuildError::UnexpectedMessage => "Unexpected message",
            BuildError::Exhausted => "Keystream exhausted",
        };
        Some(text::string_of(text::chars_of(words).as_slice()))
    }
}

/// The first hop of a path, to be dialed.
pub fn first_hop(path: &[SocketAddr]) -> (r: Result<SocketAddr, BuildError>)
    ensures
        match r {
            Ok(a) => path@.len() > 0 && a == path@[0],
            Err(e) => path@.len() == 0 && e == BuildError::EmptyPath,
        },
{
    if path.len() == 0 {
        Err(BuildError::EmptyPath)
    } else {
        Ok(path[0])
    }
}

/// The first packet of a circuit: a `Create` cell with a public key.
pub open spec fn create_packet(circ_id: CircuitId, public: Seq<u8>) -> Seq<u8> {
    wire::cell_packet(CellView { circ_id, command: CellCommand::Create, payload: public })
}

pub fn make_create_packet(circ_id: CircuitId, public: Vec<u8>) -> (r: Vec<u8>)
    ensures
        r@ == create_packet(circ_id, public@),
{
    Message::TorCell(Cell { circ_id, command: CellCommand::Create, payload: public }).packet()
}

/// Begins a circuit with the key that was made for it, if one was.
pub fn offer_with(
    circ_id: CircuitId,
    path: Vec<SocketAddr>,
    key: Option<EphemeralPrivateKey>,
) -> (r: Result<(CircuitOffer, Vec<u8>), BuildError>)
    ensures
        path@.len() == 0 ==> r == Err::<(CircuitOffer, Vec<u8>), _>(BuildError::EmptyPath),
        path@.len() > 0 ==> match key {
            None => r == Err::<(CircuitOffer, Vec<u8>), _>(BuildError::Keygen),
            Some(k) => match crypto::ephemeral_public(k) {
                None => r == Err::<(CircuitOffer, Vec<u8>), _>(BuildError::Keygen),
                Some(public) => r matches Ok((offer, packet)) && offer.circ_id == circ_id
                    && offer.path@ == path@ && offer.key == k && packet@ == create_packet(
                    circ_id,
                    public,
                ),
            },
        },
{
    if path.len() == 0 {
        return Err(BuildError::EmptyPath);
    }
    let key = match key {
        Some(key) => key,
        None => {
            return Err(BuildError::Keygen);
        },
    };
    match crypto::compute_public(&key) {
        Some(public) => {
            let packet = make_create_packet(circ_id, public);
            Ok((CircuitOffer { circ_id, path, key }, packet))
        },
        None => Err(BuildError::Keygen),
    }
}

/// Begins a circuit with a fresh key. The packet goes to the first hop. Whether a key can be made is
/// left to the random source of the system.
pub fn establish_circuit(circ_id: CircuitId, path: Vec<SocketAddr>) -> (r: Result<
    (CircuitOffer, Vec<u8>),
    BuildError,
>)
    ensures
        match r {
            Ok((offer, packet)) => path@.len() > 0 && offer.circ_id == circ_id && offer.path@
                == path@ && (crypto::ephemeral_public(offer.key) matches Some(public) && public.len()
                == 32 && packet@ == create_packet(circ_id, public)),
            Err(e) => e == if path@.len() == 0 {
                BuildError::EmptyPath
            } else {
                BuildError::Keygen
            },
        },
{
    let key = crypto::generate_ephemeral();
    offer_with(circ_id, path, key)
}

/// The public key in the first hop's answer. A relay answers with a `Created` cell; the key is read
/// whatever the cell's command is, and the handshake decides.
pub open spec fn first_answer(payload: Seq<u8>) -> Result<Seq<u8>, BuildError> {
    match wire::get_message(payload) {
        None => Err(BuildError::Decode),
        Some(MessageView::Gossip(_)) => Err(BuildError::InvalidResponse),
        Some(MessageView::TorCell(cell)) => Ok(cell.payload),
    }
}

/// A circuit after its first hop, under the key that was agreed on.
pub open spec fn one_hop(circ_id: CircuitId, path: Seq<SocketAddr>, key: Seq<u8>) -> BuilderView {
    BuilderView { path, link: link::one_hop_link(circ_id, crypto::fresh_cipher(key)) }
}

impl CircuitBuilder {
    /// A circuit after its first hop.
    pub fn new(circ_id: CircuitId, path: Vec<SocketAddr>, key: [u8; 32]) -> (r: CircuitBuilder)
        ensures
            r@ == one_hop(circ_id, path@, key@),
    {
        CircuitBuilder { path, link: Link::new(circ_id, key) }
    }
}

impl CircuitOffer {
    /// Takes the payload that the first hop answered.
    pub fn answered(self, payload: &[u8]) -> (r: Result<CircuitBuilder, BuildError>)
        ensures
            match first_answer(payload@) {
                Err(e) => r == Err::<CircuitBuilder, _>(e),
                Ok(public) => match crypto::agreed_key(self.key, public) {
                    None => r == Err::<CircuitBuilder, _>(BuildError::Handshake),
                    Some(key) => r matches Ok(b) && b@ == one_hop(self.circ_id, self.path@, key),
                },
            },
    {
        match Message::decode(payload) {
            None => Err(BuildError::Decode),
            Some(Message::Gossip(_)) => Err(BuildError::InvalidResponse),
            Some(Message::TorCell(cell)) => match crypto::agree(
                self.key,
                cell.payload.as_slice(),
            ) {
                None => Err(BuildError::Handshake),
                Some(key) => Ok(CircuitBuilder::new(self.circ_id, self.path, key)),
            },
        }
    }
}

/// What an `Extend` cell carries: the next hop's address and port, and a public key for it.
pub open spec fn extend_data(ip: crate::addr::Ipv4Addr, port: u16, public: Seq<u8>) -> Seq<u8> {
    ip.octets() + bytes::be16(port) + public
}

/// The cell that asks the last hop of a circuit to extend it.
pub open spec fn extend_cell(
    ip: crate::addr::Ipv4Addr,
    port: u16,
    public: Seq<u8>,
) -> RelayCellView {
    circuit::plain_relay_cell(0, RelayCommand::Extend, extend_data(ip, port, public))
}

/// What comes of extending a circuit to the next hop of its path with the key that was made for that
/// hop, if one was: the circuit after it, and the key with the packet that carries its public key to
/// the last hop.
pub open spec fn extend_result(v: BuilderView, key: Option<EphemeralPrivateKey>) -> (
    BuilderView,
    Result<(EphemeralPrivateKey, Seq<u8>), BuildError>,
) {
    match v.path[v.hops() as int] {
        SocketAddr::V6 { .. } => (v, Err(BuildError::Ipv6NotSupported)),
        SocketAddr::V4 { ip, port } => match key {
            None => (v, Err(BuildError::Keygen)),
            Some(k) => match crypto::ephemeral_public(k) {
                None => (v, Err(BuildError::Keygen)),
                Some(public) => {
                    let cell = extend_cell(ip, port, public);
                    if v.link.can_send(cell) {
                        (
                            BuilderView { link: v.link.sent(cell), ..v },
                            Ok((k, v.link.packet(cell))),
                        )
                    } else {
                        (v, Err(BuildError::Exhausted))
                    }
                },
            },
        },
    }
}

pub open spec fn extend_view(r: Result<(EphemeralPrivateKey, Vec<u8>), BuildError>) -> Result<
    (EphemeralPrivateKey, Seq<u8>),
    BuildError,
> {
    match r {
        Ok((key, packet)) => Ok((key, packet@)),
        Err(e) => Err(e),
    }
}

/// What comes of the answer to `Extend`, with the key that was made for the new hop: where the two
/// agree, the circuit has one more layer.
pub open spec fn extended_result(
    v: BuilderView,
    key: EphemeralPrivateKey,
    payload: Seq<u8>,
) -> (BuilderView, Result<(), BuildError>) {
    let after = v.link.after_receive(payload);
    match link::received(v.link.backward, payload) {
        Err(e) => (BuilderView { link: after, ..v }, Err(build_error(e))),
        Ok(rc) => if rc.command != RelayCommand::Extended {
            (BuilderView { link: after, ..v }, Err(BuildError::UnexpectedRelayCommand))
        } else {
            match crypto::agreed_key(key, rc.data) {
                None => (BuilderView { link: after, ..v }, Err(BuildError::Handshake)),
                Some(secret) => (
                    BuilderView {
                        link: LinkView {
                            forward: after.forward.push(crypto::fresh_cipher(secret)),
                            backward: after.backward.push(crypto::fresh_cipher(secret)),
                            ..after
                        },
                        ..v
                    },
                    Ok(()),
                ),
            }
        },
    }
}

pub open spec fn build_error(e: ReceiveError) -> BuildError {
    match e {
        ReceiveError::Decode => BuildError::Decode,
        ReceiveError::NotACell => BuildError::UnexpectedMessage,
        ReceiveError::NotARelayCell => BuildError::UnexpectedCell,
        ReceiveError::Exhausted => BuildError::Exhausted,
    }
}

impl CircuitBuilder {
    fn hops(&self) -> (r: usize)
        ensures
            r == self@.hops(),
    {
        self.link.forward.ciphers.len()
    }

    /// Whether every hop of the path has answered.
    pub fn is_complete(&self) -> (r: bool)
        ensures
            r == (self@.hops() >= self@.path.len()),
    {
        self.hops() >= self.path.len()
    }

    /// Makes the packet that extends the circuit to the next hop, with the key that was made for the
    /// hop, if one was.
    pub fn extend_with(&mut self, key: Option<EphemeralPrivateKey>) -> (r: Result<
        (EphemeralPrivateKey, Vec<u8>),
        BuildError,
    >)
        requires
            old(self)@.hops() < old(self)@.path.len(),
        ensures
            (final(self)@, extend_view(r)) == extend_result(old(self)@, key),
    {
        match self.path[self.hops()] {
            SocketAddr::V6 { .. } => Err(BuildError::Ipv6NotSupported),
            SocketAddr::V4 { ip, port } => {
                let key = match key {
                    Some(key) => key,
                    None => {
                        return Err(BuildError::Keygen);
                    },
                };
                let public = match crypto::compute_public(&key) {
                    Some(public) => public,
                    None => {
                        return Err(BuildError::Keygen);
                    },
                };
                let mut data: Vec<u8> = Vec::new();
                data.push(ip.a);
                data.push(ip.b);
                data.push(ip.c);
                data.push(ip.d);
                bytes::push_be16(&mut data, port);
                bytes::append_bytes(&mut data, public.as_slice());
                assert(data@ =~= extend_data(ip, port, public@));
                let cell = RelayCell::plain(0, RelayCommand::Extend, data);
                match link::send_relay_cell(&mut self.link, &cell) {
                    Some(packet) => Ok((key, packet)),
                    None => Err(BuildError::Exhausted),
                }
            },
        }
    }

    /// Makes the packet that extends the circuit to the next hop, with a fresh key. The key is for
    /// the answer. Whether one can be made is left to the random source of the system.
    pub fn extend(&mut self) -> (r: Result<(EphemeralPrivateKey, Vec<u8>), BuildError>)
        requires
            old(self)@.hops() < old(self)@.path.len(),
        ensures
            exists|key: Option<EphemeralPrivateKey>|
                (final(self)@, extend_view(r)) == #[trigger] extend_result(old(self)@, key),
            r matches Ok((key, _)) ==> crypto::has_x25519_length(key),
    {
        let key = crypto::generate_ephemeral();
        self.extend_with(key)
    }

    /// Takes the payload that answered an `Extend` packet, with the key that was made for the hop.
    pub fn extended(&mut self, key: EphemeralPrivateKey, payload: &[u8]) -> (r: Result<
        (),
        BuildError,
    >)
        requires
            old(self)@.hops() < old(self)@.path.len(),
        ensures
            (final(self)@, r) == extended_result(old(self)@, key, payload@),
    {
        match link::recv_relay_cell(&mut self.link, payload) {
            Ok(rc) => {
                if rc.command != RelayCommand::Extended {
                    return Err(BuildError::UnexpectedRelayCommand);
                }
                match crypto::agree(key, rc.data.as_slice()) {
                    None => Err(BuildError::Handshake),
                    Some(secret) => {
                        self.link.push_hop(secret);
                        Ok(())
                    },
                }
            },
            Err(ReceiveError::Decode) => Err(BuildError::Decode),
            Err(ReceiveError::NotACell) => Err(BuildError::UnexpectedMessage),
            Err(ReceiveError::NotARelayCell) => Err(BuildError::UnexpectedCell),
            Err(ReceiveError::Exhausted) => Err(BuildError::Exhausted),
        }
    }

    /// The finished circuit.
    pub fn finish(self) -> (r: Link)
        ensures
            r@ == self@.link,
    {
        self.link
    }
}

/// The host of an address: what stands before its first colon.
pub open spec fn host_of(addr: Seq<char>) -> Seq<char> {
    addr.take(text::find_from(addr, ':', 0))
}

/// The host of an address, to be named in the TLS handshake.
pub fn server_host(addr: &str) -> (r: String)
    ensures
        r@ == host_of(addr@),
{
    let chars = text::chars_of(addr);
    let end: usize = text::position_from(chars.as_slice(), ':', 0);
    let host = vstd::slice::slice_subrange(chars.as_slice(), 0, end);
    assert(host@ =~= host_of(addr@));
    text::string_of(host)
}

/// The relay that takes an `Extend` cell dials the very hop that the client meant, with a `Create`
/// cell for the very key that the client made for it.
pub proof fn law_extend_reaches_the_next_hop(
    c: CircuitView,
    ip: crate::addr::Ipv4Addr,
    port: u16,
    public: Seq<u8>,
)
    ensures
        relay::extend_step(c, extend_data(ip, port, public)) == relay::one(
            relay::ActionView::Extend {
                circ_id: c.id,
                addr: SocketAddr::V4 { ip, port },
                packet: create_packet(c.id, public),
            },
        ),
{
    let data = extend_data(ip, port, public);
    assert(data[4] == bytes::be16(port)[0]);
    assert(data[5] == bytes::be16(port)[1]);
    assert(port as nat == (port as nat / 256) * 256 + port as nat % 256);
    assert(relay::addr_at(data, 0) == SocketAddr::V4 { ip, port });
    assert(data.skip(6) =~= public);
}

/// No circuit is extended to an IPv6 hop, whatever key is made for it.
pub proof fn law_ipv6_hops_are_refused(v: BuilderView, key: Option<EphemeralPrivateKey>)
    requires
        v.hops() < v.path.len(),
        v.path[v.hops() as int] is V6,
    ensures
        extend_result(v, key) == (
            v,
            Err::<(EphemeralPrivateKey, Seq<u8>), _>(BuildError::Ipv6NotSupported),
        ),
{
}

/// The first hop and the client end up with the same ciphers: if the client's `Create` cell came to
/// a relay that answered it, the client reads the answer and builds on the key of the relay's
/// circuit.
pub proof fn law_first_hop_shares_the_key(
    before: ManagerView,
    circ_id: CircuitId,
    conn: ConnectionId,
    key: EphemeralPrivateKey,
    public: Seq<u8>,
    path: Seq<SocketAddr>,
    after: ManagerView,
    answer: Seq<u8>,
    payload: Seq<u8>,
)
    requires
        crypto::ephemeral_public(key) == Some(public),
        relay::creates(before, circ_id, conn, public, after, Some(answer)),
        crate::packet::unframed(answer) == Ok::<_, crate::packet::FrameError>(payload),
        answer.len() <= crate::packet::MAX_PACKET_LEN,
    ensures
        match first_answer(payload) {
            Ok(other) => match crypto::agreed_key(key, other) {
                Some(secret) => {
                    let link = one_hop(circ_id, path, secret).link;
                    &&& after.circuits[circ_id].forward_cipher == Some(link.forward[0])
                    &&& after.circuits[circ_id].backward_cipher == Some(link.backward[0])
                    &&& wire::get_message(payload) == Some(
                        MessageView::TorCell(
                            CellView { circ_id, command: CellCommand::Created, payload: other },
                        ),
                    )
                },
                None => false,
            },
            Err(_) => false,
        },
{
    crate::relay_laws::law_both_ends_share_the_key(
        before,
        circ_id,
        conn,
        key,
        public,
        after,
        answer,
    );
    let (other, secret) = choose|other: Seq<u8>, secret: Seq<u8>|
        answer == #[trigger] relay::created_packet(circ_id, other) && crypto::agreed_key(
            key,
            other,
        ) == Some(secret) && after == before.with_circuit(
            #[trigger] relay::created_circuit(circ_id, conn, secret),
        );
    let v = MessageView::TorCell(
        CellView { circ_id, command: CellCommand::Created, payload: other },
    );
    wire::law_packet_carries_message(v, Seq::empty());
    assert(answer + Seq::<u8>::empty() =~= answer);
}

} // verus!
