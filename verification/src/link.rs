//! A client's end of a built circuit: sending and receiving through all layers, and the flow of
//! data under the windows.

use crate::circuit;
use crate::crypto::{CipherView, CircuitCipher};
use crate::onion;
use crate::onion::Layers;
use crate::wire;
use crate::wire::{
    Cell, CellCommand, CellView, CircuitId, Message, MessageView, RelayCell, RelayCellView,
    RelayCommand,
};
use vstd::prelude::*;

verus! {

/// How many cells of data may still be sent, and are still to be received, before a `SendMe`: on
/// the circuit, and on the one stream of it.
#[derive(Debug, Clone, Copy, PartialEq, Eq, Structural)]
pub struct Windows {
    pub circuit_package: u16,
    pub stream_package: u16,
    pub circuit_deliver: u16,
    pub stream_deliver: u16,
}

pub open spec fn full_windows() -> Windows {
    Windows {
        circuit_package: circuit::CIRCUIT_WINDOW_START,
        stream_package: circuit::STREAM_WINDOW_START,
        circuit_deliver: circuit::CIRCUIT_WINDOW_START,
        stream_deliver: circuit::STREAM_WINDOW_START,
    }
}

impl Windows {
    pub fn full() -> (r: Windows)
        ensures
            r == full_windows(),
    {
        Windows {
            circuit_package: circuit::CIRCUIT_WINDOW_START,
            stream_package: circuit::STREAM_WINDOW_START,
            circuit_deliver: circuit::CIRCUIT_WINDOW_START,
            stream_deliver: circuit::STREAM_WINDOW_START,
        }
    }
}

/// A client's end of a circuit: the ciphers that it shares with the hops, the nearest hop first, and
/// its windows.
#[derive(Debug)]
pub struct Link {
    pub circ_id: CircuitId,
    pub forward: Layers,
    pub backward: Layers,
    pub windows: Windows,
}

/// A `Link` as a mathematical value.
pub ghost struct LinkView {
    pub circ_id: CircuitId,
    pub forward: Seq<CipherView>,
    pub backward: Seq<CipherView>,
    pub windows: Windows,
}

impl View for Link {
    type V = LinkView;

    open spec fn view(&self) -> LinkView {
        LinkView {
            circ_id: self.circ_id,
            forward: self.forward@,
            backward: self.backward@,
            windows: self.windows,
        }
    }
}

/// The payload of a cell that carries a relay cell under all these layers.
pub open spec fn onion_cell(
    circ_id: CircuitId,
    layers: Seq<CipherView>,
    cell: RelayCellView,
) -> CellView {
    CellView {
        circ_id,
        command: CellCommand::Relay,
        payload: onion::onion(layers, wire::put_relay_cell(cell)),
    }
}

/// A relay cell under all these layers, in a cell of the circuit, in its frame.
pub open spec fn onion_packet(
    circ_id: CircuitId,
    layers: Seq<CipherView>,
    cell: RelayCellView,
) -> Seq<u8> {
    wire::cell_packet(onion_cell(circ_id, layers, cell))
}

/// The ciphers after a relay cell.
pub open spec fn layers_after_cell(layers: Seq<CipherView>, cell: RelayCellView) -> Seq<CipherView> {
    onion::layers_after(layers, wire::put_relay_cell(cell).len())
}

impl LinkView {
    /// Whether the keystreams last for a relay cell to the last hop.
    pub open spec fn can_send(self, cell: RelayCellView) -> bool {
        onion::have_room(self.forward, wire::put_relay_cell(cell).len())
    }

    /// The packet that carries a relay cell to the last hop.
    pub open spec fn packet(self, cell: RelayCellView) -> Seq<u8> {
        onion_packet(self.circ_id, self.forward, cell)
    }

    /// The link after a relay cell was sent.
    pub open spec fn sent(self, cell: RelayCellView) -> LinkView {
        LinkView { forward: layers_after_cell(self.forward, cell), ..self }
    }

    /// The link after a payload: the ciphers of the way back move on with every relay cell, also
    /// with one that cannot be decoded.
    pub open spec fn after_receive(self, payload: Seq<u8>) -> LinkView {
        match wire::get_message(payload) {
            Some(MessageView::TorCell(cell)) => if cell.command == CellCommand::Relay
                && onion::have_room(self.backward, cell.payload.len()) {
                LinkView {
                    backward: onion::layers_after(self.backward, cell.payload.len()),
                    ..self
                }
            } else {
                self
            },
            _ => self,
        }
    }
}

/// A link of one hop, under the key that was agreed on with it.
pub open spec fn one_hop_link(circ_id: CircuitId, cipher: CipherView) -> LinkView {
    LinkView {
        circ_id,
        forward: seq![cipher],
        backward: seq![cipher],
        windows: full_windows(),
    }
}

impl Link {
    /// A link of one hop.
    pub fn new(circ_id: CircuitId, key: [u8; 32]) -> (r: Link)
        ensures
            r@ == one_hop_link(circ_id, crate::crypto::fresh_cipher(key@)),
    {
        let cipher = CircuitCipher::new(key);
        Link {
            circ_id,
            forward: Layers::one(cipher),
            backward: Layers::one(cipher),
            windows: Windows::full(),
        }
    }

    /// Adds a hop at the far end, under the key that was agreed on with it.
    pub fn push_hop(&mut self, key: [u8; 32])
        ensures
            final(self)@ == (LinkView {
                forward: old(self)@.forward.push(crate::crypto::fresh_cipher(key@)),
                backward: old(self)@.backward.push(crate::crypto::fresh_cipher(key@)),
                ..old(self)@
            }),
    {
        let cipher = CircuitCipher::new(key);
        self.forward.push(cipher);
        self.backward.push(cipher);
    }
}

/// Encrypts a relay cell for the last hop, with the layers of all hops, and frames it. Returns
/// nothing, and leaves the link, where a keystream is used up.
pub fn send_relay_cell(link: &mut Link, cell: &RelayCell) -> (r: Option<Vec<u8>>)
    ensures
        match r {
            Some(packet) => old(link)@.can_send(cell@) && packet@ == old(link)@.packet(cell@)
                && final(link)@ == old(link)@.sent(cell@),
            None => !old(link)@.can_send(cell@) && final(link)@ == old(link)@,
        },
{
    let mut payload = cell.encode();
    if !link.forward.apply(&mut payload) {
        return None;
    }
    let out = Message::TorCell(
        Cell { circ_id: link.circ_id, command: CellCommand::Relay, payload },
    );
    Some(out.packet())
}

/// Why a payload holds no relay cell for the client.
#[derive(Debug, Clone, Copy, PartialEq, Eq, Structural)]
pub enum ReceiveError {
    /// The message, or the relay cell in it, could not be decoded.
    Decode,
    /// The message is no cell.
    NotACell,
    /// The cell has another command than `Relay`.
    NotARelayCell,
    /// A keystream is used up.
    Exhausted,
}

/// The relay cell in a payload, under the layers of the way back.
pub open spec fn received(backward: Seq<CipherView>, payload: Seq<u8>) -> Result<
    RelayCellView,
    ReceiveError,
> {
    match wire::get_message(payload) {
        None => Err(ReceiveError::Decode),
        Some(MessageView::Gossip(_)) => Err(ReceiveError::NotACell),
        Some(MessageView::TorCell(cell)) => if cell.command != CellCommand::Relay {
            Err(ReceiveError::NotARelayCell)
        } else if !onion::have_room(backward, cell.payload.len()) {
            Err(ReceiveError::Exhausted)
        } else {
            match wire::get_relay_cell(onion::onion(backward, cell.payload)) {
                None => Err(ReceiveError::Decode),
                Some(rc) => Ok(rc),
            }
        },
    }
}

/// Takes all layers off the relay cell in a payload, and reads it.
pub fn recv_relay_cell(link: &mut Link, payload: &[u8]) -> (r: Result<RelayCell, ReceiveError>)
    ensures
        match received(old(link)@.backward, payload@) {
            Ok(v) => r matches Ok(cell) && cell@ == v,
            Err(e) => r == Err::<RelayCell, _>(e),
        },
        final(link)@ == old(link)@.after_receive(payload@),
{
    match Message::decode(payload) {
        None => Err(ReceiveError::Decode),
        Some(Message::Gossip(_)) => Err(ReceiveError::NotACell),
        Some(Message::TorCell(cell)) => {
            if cell.command != CellCommand::Relay {
                return Err(ReceiveError::NotARelayCell);
            }
            let mut plain = cell.payload;
            if !link.backward.apply(&mut plain) {
                return Err(ReceiveError::Exhausted);
            }
            match RelayCell::decode(plain.as_slice()) {
                None => Err(ReceiveError::Decode),
                Some(rc) => Ok(rc),
            }
        },
    }
}

/// The stream that carries the data of a proxied connection.
pub const DATA_STREAM: u16 = 1;

/// The longest piece of data that is read from a local connection at a time.
pub const UPLOAD_CHUNK: usize = 4096;

/// What becomes of data of a local connection.
#[derive(Debug)]
pub enum Upload {
    /// It goes out in this packet.
    Packet(Vec<u8>),
    /// It has to wait: a window is closed until a `SendMe` comes.
    Wait,
    /// A keystream is used up.
    Exhausted,
}

/// An `Upload` as a mathematical value.
pub ghost enum UploadView {
    Packet(Seq<u8>),
    Wait,
    Exhausted,
}

impl View for Upload {
    type V = UploadView;

    open spec fn view(&self) -> UploadView {
        match self {
            Upload::Packet(packet) => UploadView::Packet(packet@),
            Upload::Wait => UploadView::Wait,
            Upload::Exhausted => UploadView::Exhausted,
        }
    }
}

/// Whether the windows let data out.
pub open spec fn may_upload(w: Windows) -> bool {
    w.circuit_package > 0 && w.stream_package > 0
}

/// The cell that carries a piece of data.
pub open spec fn data_cell(data: Seq<u8>) -> RelayCellView {
    circuit::plain_relay_cell(DATA_STREAM, RelayCommand::Data, data)
}

/// Data of a local connection goes out in a `Data` cell, which both windows count. Nothing goes out
/// through a closed window.
pub open spec fn upload_step(l: LinkView, data: Seq<u8>) -> (LinkView, UploadView) {
    let cell = data_cell(data);
    if !may_upload(l.windows) {
        (l, UploadView::Wait)
    } else if !l.can_send(cell) {
        (l, UploadView::Exhausted)
    } else {
        (
            LinkView {
                windows: Windows {
                    circuit_package: (l.windows.circuit_package - 1) as u16,
                    stream_package: (l.windows.stream_package - 1) as u16,
                    ..l.windows
                },
                ..l.sent(cell)
            },
            UploadView::Packet(l.packet(cell)),
        )
    }
}

/// Whether data can go out now.
pub fn can_upload(link: &Link) -> (r: bool)
    ensures
        r == may_upload(link@.windows),
{
    link.windows.circuit_package > 0 && link.windows.stream_package > 0
}

/// Wraps data of a local connection for the circuit.
pub fn upload_packet(link: &mut Link, data: &[u8]) -> (r: Upload)
    ensures
        (final(link)@, r@) == upload_step(old(link)@, data@),
{
    if !can_upload(link) {
        return Upload::Wait;
    }
    let cell = RelayCell::plain(DATA_STREAM, RelayCommand::Data, vstd::slice::slice_to_vec(data));
    match send_relay_cell(link, &cell) {
        None => Upload::Exhausted,
        Some(packet) => {
            link.windows.circuit_package = link.windows.circuit_package - 1;
            link.windows.stream_package = link.windows.stream_package - 1;
            Upload::Packet(packet)
        },
    }
}

/// What to do with a payload that arrives while data flows.
#[derive(Debug)]
pub enum Download {
    /// Nothing; go on.
    Skip,
    /// Write the data to the local connection, and send the packets on the circuit.
    Write { data: Vec<u8>, answers: Vec<Vec<u8>> },
    /// The other side has ended the stream.
    Stop,
    /// A keystream is used up, or a window that was never opened again.
    Exhausted,
}

/// A `Download` as a mathematical value.
pub ghost enum DownloadView {
    Skip,
    Write { data: Seq<u8>, answers: Seq<Seq<u8>> },
    Stop,
    Exhausted,
}

pub open spec fn packet_views(packets: Seq<Vec<u8>>) -> Seq<Seq<u8>> {
    packets.map_values(|p: Vec<u8>| p@)
}

impl View for Download {
    type V = DownloadView;

    open spec fn view(&self) -> DownloadView {
        match self {
            Download::Skip => DownloadView::Skip,
            Download::Write { data, answers } => DownloadView::Write {
                data: data@,
                answers: packet_views(answers@),
            },
            Download::Stop => DownloadView::Stop,
            Download::Exhausted => DownloadView::Exhausted,
        }
    }
}

/// The circuit's part of received data: its window shrinks by one, and is opened again with a
/// `SendMe` where an increment is used up. No packets come of it where a keystream or the window can
/// count no further.
pub open spec fn circuit_credit(l: LinkView) -> (LinkView, Option<Seq<Seq<u8>>>) {
    let less = (l.windows.circuit_deliver - 1) as u16;
    let more = (less + circuit::CIRCUIT_WINDOW_INCREMENT) as u16;
    let cell = circuit::sendme(0);
    if l.windows.circuit_deliver == 0 {
        (l, None)
    } else if less > circuit::CIRCUIT_WINDOW_START - circuit::CIRCUIT_WINDOW_INCREMENT {
        (
            LinkView { windows: Windows { circuit_deliver: less, ..l.windows }, ..l },
            Some(Seq::empty()),
        )
    } else if l.can_send(cell) {
        (
            LinkView { windows: Windows { circuit_deliver: more, ..l.windows }, ..l.sent(cell) },
            Some(seq![l.packet(cell)]),
        )
    } else {
        (l, None)
    }
}

/// The stream's part of received data, likewise, behind the packets that came before.
pub open spec fn stream_credit(l: LinkView, before: Seq<Seq<u8>>) -> (
    LinkView,
    Option<Seq<Seq<u8>>>,
) {
    let less = (l.windows.stream_deliver - 1) as u16;
    let more = (less + circuit::STREAM_WINDOW_INCREMENT) as u16;
    let cell = circuit::sendme(DATA_STREAM);
    if l.windows.stream_deliver == 0 {
        (l, None)
    } else if less > circuit::STREAM_WINDOW_START - circuit::STREAM_WINDOW_INCREMENT {
        (LinkView { windows: Windows { stream_deliver: less, ..l.windows }, ..l }, Some(before))
    } else if l.can_send(cell) {
        (
            LinkView { windows: Windows { stream_deliver: more, ..l.windows }, ..l.sent(cell) },
            Some(before.push(l.packet(cell))),
        )
    } else {
        (l, None)
    }
}

/// What received data is answered.
pub open spec fn data_credit(l: LinkView) -> (LinkView, Option<Seq<Seq<u8>>>) {
    match circuit_credit(l) {
        (after, None) => (after, None),
        (after, Some(answers)) => stream_credit(after, answers),
    }
}

/// A window that is opened by an increment, as far as it can count.
pub open spec fn opened(window: u16, increment: u16) -> u16 {
    if window + increment > u16::MAX {
        u16::MAX
    } else {
        (window + increment) as u16
    }
}

/// The windows after a `SendMe`: the other end can take more on the circuit, or on the stream.
pub open spec fn sendme_credit(w: Windows, stream_id: u16) -> Windows {
    if stream_id == 0 {
        Windows {
            circuit_package: opened(w.circuit_package, circuit::CIRCUIT_WINDOW_INCREMENT),
            ..w
        }
    } else if stream_id == DATA_STREAM {
        Windows {
            stream_package: opened(w.stream_package, circuit::STREAM_WINDOW_INCREMENT),
            ..w
        }
    } else {
        w
    }
}

/// What a received relay cell comes to while data flows.
pub open spec fn flow_step(l: LinkView, rc: RelayCellView) -> (LinkView, DownloadView) {
    match rc.command {
        RelayCommand::Data => match data_credit(l) {
            (after, None) => (after, DownloadView::Exhausted),
            (after, Some(answers)) => (after, DownloadView::Write { data: rc.data, answers }),
        },
        RelayCommand::SendMe => (
            LinkView { windows: sendme_credit(l.windows, rc.stream_id), ..l },
            DownloadView::Skip,
        ),
        RelayCommand::End => (l, DownloadView::Stop),
        _ => (l, DownloadView::Skip),
    }
}

/// What the client does with a payload while data flows: whatever is no relay cell is skipped.
pub open spec fn download_step(l: LinkView, payload: Seq<u8>) -> (LinkView, DownloadView) {
    let after = l.after_receive(payload);
    match received(l.backward, payload) {
        Ok(rc) => flow_step(after, rc),
        Err(ReceiveError::Exhausted) => (after, DownloadView::Exhausted),
        Err(_) => (after, DownloadView::Skip),
    }
}

/// What a hidden service does with a payload while data flows: whatever is no relay cell ends the
/// flow.
pub open spec fn serve_step(l: LinkView, payload: Seq<u8>) -> (LinkView, DownloadView) {
    let after = l.after_receive(payload);
    match received(l.backward, payload) {
        Ok(rc) => flow_step(after, rc),
        Err(ReceiveError::Exhausted) => (after, DownloadView::Exhausted),
        Err(_) => (after, DownloadView::Stop),
    }
}

fn no_data() -> (r: Vec<u8>)
    ensures
        r@ == Seq::<u8>::empty(),
{
    Vec::new()
}

/// Sends a `SendMe` and keeps the packet.
fn open_window(link: &mut Link, stream_id: u16, answers: &mut Vec<Vec<u8>>) -> (r: bool)
    ensures
        r == old(link)@.can_send(circuit::sendme(stream_id)),
        r ==> final(link)@ == old(link)@.sent(circuit::sendme(stream_id)) && packet_views(
            final(answers)@,
        ) == packet_views(old(answers)@).push(old(link)@.packet(circuit::sendme(stream_id))),
        !r ==> final(link)@ == old(link)@ && final(answers)@ == old(answers)@,
{
    let cell = RelayCell::plain(stream_id, RelayCommand::SendMe, no_data());
    match send_relay_cell(link, &cell) {
        None => false,
        Some(packet) => {
            answers.push(packet);
            assert(packet_views(answers@) =~= packet_views(old(answers)@).push(packet@));
            true
        },
    }
}

fn count_data(link: &mut Link) -> (r: Option<Vec<Vec<u8>>>)
    ensures
        final(link)@ == data_credit(old(link)@).0,
        match data_credit(old(link)@).1 {
            None => r is None,
            Some(answers) => r matches Some(list) && packet_views(list@) == answers,
        },
{
    let mut answers: Vec<Vec<u8>> = Vec::new();
    assert(packet_views(answers@) =~= Seq::<Seq<u8>>::empty());
    if link.windows.circuit_deliver == 0 {
        return None;
    }
    let less: u16 = link.windows.circuit_deliver - 1;
    if less <= circuit::CIRCUIT_WINDOW_START - circuit::CIRCUIT_WINDOW_INCREMENT {
        if !open_window(link, 0, &mut answers) {
            return None;
        }
        assert(packet_views(answers@) =~= seq![old(link)@.packet(circuit::sendme(0))]);
        link.windows.circuit_deliver = less + circuit::CIRCUIT_WINDOW_INCREMENT;
    } else {
        link.windows.circuit_deliver = less;
    }
    if link.windows.stream_deliver == 0 {
        return None;
    }
    let less: u16 = link.windows.stream_deliver - 1;
    if less <= circuit::STREAM_WINDOW_START - circuit::STREAM_WINDOW_INCREMENT {
        if !open_window(link, DATA_STREAM, &mut answers) {
            return None;
        }
        link.windows.stream_deliver = less + circuit::STREAM_WINDOW_INCREMENT;
    } else {
        link.windows.stream_deliver = less;
    }
    Some(answers)
}

fn open_by(window: u16, increment: u16) -> (r: u16)
    ensures
        r == opened(window, increment),
{
    if window > 65535 - increment {
        65535
    } else {
        window + increment
    }
}

fn count_sendme(windows: Windows, stream_id: u16) -> (r: Windows)
    ensures
        r == sendme_credit(windows, stream_id),
{
    let mut w = windows;
    if stream_id == 0 {
        w.circuit_package = open_by(w.circuit_package, circuit::CIRCUIT_WINDOW_INCREMENT);
    } else if stream_id == DATA_STREAM {
        w.stream_package = open_by(w.stream_package, circuit::STREAM_WINDOW_INCREMENT);
    }
    w
}

/// Takes a relay cell while data flows.
pub fn flow(link: &mut Link, rc: RelayCell) -> (r: Download)
    ensures
        (final(link)@, r@) == flow_step(old(link)@, rc@),
{
    match rc.command {
        RelayCommand::Data => match count_data(link) {
            None => Download::Exhausted,
            Some(answers) => Download::Write { data: rc.data, answers },
        },
        RelayCommand::SendMe => {
            link.windows = count_sendme(link.windows, rc.stream_id);
            Download::Skip
        },
        RelayCommand::End => Download::Stop,
        _ => Download::Skip,
    }
}

/// Takes a payload while data flows to the client.
pub fn download(link: &mut Link, payload: &[u8]) -> (r: Download)
    ensures
        (final(link)@, r@) == download_step(old(link)@, payload@),
{
    match recv_relay_cell(link, payload) {
        Ok(rc) => flow(link, rc),
        Err(ReceiveError::Exhausted) => Download::Exhausted,
        Err(_) => Download::Skip,
    }
}

/// Takes a payload while data flows to a hidden service.
pub fn serve(link: &mut Link, payload: &[u8]) -> (r: Download)
    ensures
        (final(link)@, r@) == serve_step(old(link)@, payload@),
{
    match recv_relay_cell(link, payload) {
        Ok(rc) => flow(link, rc),
        Err(ReceiveError::Exhausted) => Download::Exhausted,
        Err(_) => Download::Stop,
    }
}

} // verus!
