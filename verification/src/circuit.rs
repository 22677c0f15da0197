//! Circuits as a relay and a client keep them.

use crate::addr::SocketAddr;
use crate::crypto::{CipherView, CircuitCipher};
use crate::identity::VerifyingKey;
use crate::table::Table;
use crate::wire;
use crate::wire::{
    Cell, CellCommand, CellView, CircuitId, Message, RelayCell, RelayCellView, RelayCommand,
};
use std::collections::HashMap;
use vstd::prelude::*;

verus! {

pub const STREAM_WINDOW_START: u16 = 500;

pub const STREAM_WINDOW_INCREMENT: u16 = 50;

pub const CIRCUIT_WINDOW_START: u16 = 1000;

pub const CIRCUIT_WINDOW_INCREMENT: u16 = 100;

/// The number under which the caller keeps an open connection.
pub type ConnectionId = u64;

/// An exit stream of a circuit.
#[derive(Debug, Clone, Copy)]
pub struct Stream {
    pub stream_id: u16,
    pub tcp_stream: ConnectionId,
    pub package_window: u16,
    pub deliver_window: u16,
}

/// One hop of a circuit.
pub struct Circuit {
    pub id: CircuitId,
    pub next_hop: Option<SocketAddr>,
    pub next_hop_stream: Option<ConnectionId>,
    pub prev_hop: Option<SocketAddr>,
    pub prev_hop_stream: Option<ConnectionId>,
    pub forward_cipher: Option<CircuitCipher>,
    pub backward_cipher: Option<CircuitCipher>,
    pub streams: HashMap<u16, Stream>,
    pub package_window: u16,
    pub deliver_window: u16,
    /// The circuit to which a rendezvous has joined this one.
    pub linked_circuit_id: Option<CircuitId>,
}

/// A `Circuit` as a mathematical value.
pub ghost struct CircuitView {
    pub id: CircuitId,
    pub next_hop: Option<SocketAddr>,
    pub next_hop_stream: Option<ConnectionId>,
    pub prev_hop: Option<SocketAddr>,
    pub prev_hop_stream: Option<ConnectionId>,
    pub forward_cipher: Option<CipherView>,
    pub backward_cipher: Option<CipherView>,
    pub streams: Map<u16, Stream>,
    pub package_window: u16,
    pub deliver_window: u16,
    pub linked_circuit_id: Option<CircuitId>,
}

pub open spec fn cipher_view(c: Option<CircuitCipher>) -> Option<CipherView> {
    match c {
        Some(c) => Some(c@),
        None => None,
    }
}

impl View for Circuit {
    type V = CircuitView;

    open spec fn view(&self) -> CircuitView {
        CircuitView {
            id: self.id,
            next_hop: self.next_hop,
            next_hop_stream: self.next_hop_stream,
            prev_hop: self.prev_hop,
            prev_hop_stream: self.prev_hop_stream,
            forward_cipher: cipher_view(self.forward_cipher),
            backward_cipher: cipher_view(self.backward_cipher),
            streams: self.streams@,
            package_window: self.package_window,
            deliver_window: self.deliver_window,
            linked_circuit_id: self.linked_circuit_id,
        }
    }
}

/// A new circuit under a key, with full windows and no streams.
pub open spec fn fresh_circuit(
    id: CircuitId,
    prev_hop_stream: Option<ConnectionId>,
    forward_cipher: CipherView,
    backward_cipher: CipherView,
) -> CircuitView {
    CircuitView {
        id,
        next_hop: None,
        next_hop_stream: None,
        prev_hop: None,
        prev_hop_stream,
        forward_cipher: Some(forward_cipher),
        backward_cipher: Some(backward_cipher),
        streams: Map::empty(),
        package_window: CIRCUIT_WINDOW_START,
        deliver_window: CIRCUIT_WINDOW_START,
        linked_circuit_id: None,
    }
}

impl Circuit {
    pub fn fresh(
        id: CircuitId,
        prev_hop_stream: Option<ConnectionId>,
        forward_cipher: CircuitCipher,
        backward_cipher: CircuitCipher,
    ) -> (r: Circuit)
        ensures
            r@ == fresh_circuit(id, prev_hop_stream, forward_cipher@, backward_cipher@),
    {
        let streams: HashMap<u16, Stream> = HashMap::new();
        Circuit {
            id,
            next_hop: None,
            next_hop_stream: None,
            prev_hop: None,
            prev_hop_stream,
            forward_cipher: Some(forward_cipher),
            backward_cipher: Some(backward_cipher),
            streams,
            package_window: CIRCUIT_WINDOW_START,
            deliver_window: CIRCUIT_WINDOW_START,
            linked_circuit_id: None,
        }
    }
}

/// The circuits of a relay, the services it introduces and the rendezvous it keeps. Every circuit
/// stands under its own number.
pub struct CircuitManager {
    circuits: HashMap<CircuitId, Circuit>,
    pub(crate) intro_points: Table<VerifyingKey, CircuitId>,
    pub(crate) rendezvous_points: Table<[u8; 20], CircuitId>,
}

/// A `CircuitManager` as a mathematical value.
pub ghost struct ManagerView {
    pub circuits: Map<CircuitId, CircuitView>,
    /// The introduction circuit of each service, by the service's key.
    pub intro_points: Map<Seq<u8>, CircuitId>,
    /// The client's circuit of each rendezvous, by its cookie.
    pub rendezvous_points: Map<Seq<u8>, CircuitId>,
}

impl View for CircuitManager {
    type V = ManagerView;

    closed spec fn view(&self) -> ManagerView {
        ManagerView {
            circuits: self.circuits@.map_values(|c: Circuit| c@),
            intro_points: self.intro_points@,
            rendezvous_points: self.rendezvous_points@,
        }
    }
}

/// What every manager keeps to: a circuit stands under its own number.
pub open spec fn numbered(v: ManagerView) -> bool {
    forall|id: CircuitId| #[trigger] v.circuits.dom().contains(id) ==> v.circuits[id].id == id
}

impl ManagerView {
    pub open spec fn with_circuit(self, c: CircuitView) -> ManagerView {
        ManagerView { circuits: self.circuits.insert(c.id, c), ..self }
    }
}

impl CircuitManager {
    #[verifier::type_invariant]
    spec fn well_formed(self) -> bool {
        numbered(self@)
    }

    pub fn new() -> (r: CircuitManager)
        ensures
            r@.circuits == Map::<CircuitId, CircuitView>::empty(),
            r@.intro_points == Map::<Seq<u8>, CircuitId>::empty(),
            r@.rendezvous_points == Map::<Seq<u8>, CircuitId>::empty(),
    {
        let circuits: HashMap<CircuitId, Circuit> = HashMap::new();
        let intro_points: Table<VerifyingKey, CircuitId> = Table::new();
        let rendezvous_points: Table<[u8; 20], CircuitId> = Table::new();
        let r = CircuitManager { circuits, intro_points, rendezvous_points };
        assert(r@.circuits =~= Map::empty());
        r
    }

    /// Puts a circuit under its number, in place of the one that may be there.
    pub fn add_circuit(&mut self, circuit: Circuit)
        ensures
            final(self)@ == old(self)@.with_circuit(circuit@),
    {
        proof {
            use_type_invariant(&*self);
        }
        let mut circuits: HashMap<CircuitId, Circuit> = HashMap::new();
        let ghost before = self@;
        std::mem::swap(&mut self.circuits, &mut circuits);
        let id: CircuitId = circuit.id;
        circuits.insert(id, circuit);
        assert(circuits@.map_values(|c: Circuit| c@) =~= before.circuits.insert(
            circuit@.id,
            circuit@,
        ));
        self.circuits = circuits;
    }

    /// The circuit with a number.
    pub fn get_circuit(&self, id: CircuitId) -> (r: Option<&Circuit>)
        ensures
            match r {
                Some(c) => self@.circuits.dom().contains(id) && c@ == self@.circuits[id] && c@.id
                    == id,
                None => !self@.circuits.dom().contains(id),
            },
    {
        proof {
            use_type_invariant(self);
        }
        match self.circuits.get(&id) {
            Some(c) => {
                assert(self@.circuits.dom().contains(id));
                Some(c)
            },
            None => None,
        }
    }

    /// Takes the circuit with a number out.
    pub fn take_circuit(&mut self, id: CircuitId) -> (r: Option<Circuit>)
        ensures
            final(self)@ == (ManagerView { circuits: old(self)@.circuits.remove(id), ..old(self)@ }),
            match r {
                Some(c) => old(self)@.circuits.dom().contains(id) && c@ == old(self)@.circuits[id]
                    && c@.id == id,
                None => !old(self)@.circuits.dom().contains(id),
            },
    {
        proof {
            use_type_invariant(&*self);
        }
        let mut circuits: HashMap<CircuitId, Circuit> = HashMap::new();
        let ghost before = self@;
        std::mem::swap(&mut self.circuits, &mut circuits);
        let c = circuits.remove(&id);
        assert(circuits@.map_values(|c: Circuit| c@) =~= before.circuits.remove(id));
        self.circuits = circuits;
        proof {
            if c is Some {
                assert(before.circuits.dom().contains(id));
            }
        }
        c
    }

    /// The introduction circuit of a service.
    pub fn intro_point(&self, key: &VerifyingKey) -> (r: Option<CircuitId>)
        ensures
            match r {
                Some(id) => self@.intro_points.dom().contains(key@) && self@.intro_points[key@]
                    == id,
                None => !self@.intro_points.dom().contains(key@),
            },
    {
        match self.intro_points.get(key) {
            Some(id) => Some(*id),
            None => None,
        }
    }

    /// Registers the introduction circuit of a service.
    pub fn set_intro_point(&mut self, key: VerifyingKey, id: CircuitId)
        ensures
            final(self)@ == (ManagerView {
                intro_points: old(self)@.intro_points.insert(key@, id),
                ..old(self)@
            }),
    {
        proof {
            use_type_invariant(&*self);
        }
        let mut points: Table<VerifyingKey, CircuitId> = Table::new();
        std::mem::swap(&mut self.intro_points, &mut points);
        points.insert(key, id);
        self.intro_points = points;
    }

    /// The client's circuit of a rendezvous.
    pub fn rendezvous_point(&self, cookie: &[u8; 20]) -> (r: Option<CircuitId>)
        ensures
            match r {
                Some(id) => self@.rendezvous_points.dom().contains(cookie@)
                    && self@.rendezvous_points[cookie@] == id,
                None => !self@.rendezvous_points.dom().contains(cookie@),
            },
    {
        match self.rendezvous_points.get(cookie) {
            Some(id) => Some(*id),
            None => None,
        }
    }

    /// Registers the client's circuit of a rendezvous.
    pub fn set_rendezvous_point(&mut self, cookie: [u8; 20], id: CircuitId)
        ensures
            final(self)@ == (ManagerView {
                rendezvous_points: old(self)@.rendezvous_points.insert(cookie@, id),
                ..old(self)@
            }),
    {
        proof {
            use_type_invariant(&*self);
        }
        let mut points: Table<[u8; 20], CircuitId> = Table::new();
        std::mem::swap(&mut self.rendezvous_points, &mut points);
        points.insert(cookie, id);
        self.rendezvous_points = points;
    }
}

/// A relay cell under one end's cipher, in a cell of the circuit, in its frame. Without a cipher
/// the relay cell travels in the clear.
pub open spec fn sealed_packet(
    circ_id: CircuitId,
    cipher: Option<CipherView>,
    cell: RelayCellView,
) -> Seq<u8> {
    let plain = wire::put_relay_cell(cell);
    let payload = match cipher {
        Some(c) => c.output(plain),
        None => plain,
    };
    wire::cell_packet(CellView { circ_id, command: CellCommand::Relay, payload })
}

/// Whether the keystream lasts for a relay cell.
pub open spec fn can_seal(cipher: Option<CipherView>, cell: RelayCellView) -> bool {
    cipher matches Some(c) ==> c.has_room(wire::put_relay_cell(cell).len())
}

/// The cipher after a relay cell.
pub open spec fn cipher_after(cipher: Option<CipherView>, cell: RelayCellView) -> Option<
    CipherView,
> {
    match cipher {
        Some(c) => Some(c.after(wire::put_relay_cell(cell).len())),
        None => None,
    }
}

/// A relay cell that this hop, or the other end, is to interpret.
pub open spec fn plain_relay_cell(
    stream_id: u16,
    command: RelayCommand,
    data: Seq<u8>,
) -> RelayCellView {
    RelayCellView { stream_id, recognized: 0, digest: 0, command, data }
}

/// The cell that opens a window again: of the circuit, or of one of its streams.
pub open spec fn sendme(stream_id: u16) -> RelayCellView {
    plain_relay_cell(stream_id, RelayCommand::SendMe, Seq::empty())
}

impl RelayCell {
    /// A relay cell that this hop, or the other end, is to interpret.
    pub fn plain(stream_id: u16, command: RelayCommand, data: Vec<u8>) -> (r: RelayCell)
        ensures
            r@ == plain_relay_cell(stream_id, command, data@),
    {
        RelayCell { stream_id, recognized: 0, digest: 0, command, data }
    }
}

/// Encrypts a relay cell and frames it. Returns nothing, and leaves the cipher, where the keystream
/// is used up.
pub fn seal(
    circ_id: CircuitId,
    cipher: &mut Option<CircuitCipher>,
    cell: &RelayCell,
) -> (r: Option<Vec<u8>>)
    ensures
        match r {
            Some(packet) => can_seal(cipher_view(*old(cipher)), cell@) && packet@ == sealed_packet(
                circ_id,
                cipher_view(*old(cipher)),
                cell@,
            ) && cipher_view(*final(cipher)) == cipher_after(cipher_view(*old(cipher)), cell@),
            None => !can_seal(cipher_view(*old(cipher)), cell@) && cipher_view(*final(cipher))
                == cipher_view(*old(cipher)),
        },
{
    let mut payload = cell.encode();
    match *cipher {
        Some(c) => {
            let mut c = c;
            if !c.apply(&mut payload) {
                return None;
            }
            *cipher = Some(c);
        },
        None => {},
    }
    let out = Message::TorCell(Cell { circ_id, command: CellCommand::Relay, payload });
    Some(out.packet())
}

} // verus!
