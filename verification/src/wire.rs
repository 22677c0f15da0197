//! The messages of the network and their encoding.

use crate::codec;
use crate::codec::Reader;
use crate::descriptor;
use crate::descriptor::{RelayDescriptor, RelayView};
use crate::packet;
use crate::packet::Packet;
use vstd::prelude::*;

verus! {

pub type CircuitId = u32;

/// What a cell is for.
#[derive(Debug, Clone, Copy, PartialEq, Eq, Structural)]
pub enum CellCommand {
    Padding,
    Create,
    Created,
    Relay,
    Destroy,
}

impl CellCommand {
    /// The place of the command in the list of commands, which stands for it on the wire.
    pub open spec fn spec_index(self) -> u32 {
        match self {
            CellCommand::Padding => 0,
            CellCommand::Create => 1,
            CellCommand::Created => 2,
            CellCommand::Relay => 3,
            CellCommand::Destroy => 4,
        }
    }

    /// The command at a place in the list of commands.
    pub open spec fn spec_at(i: u32) -> Option<CellCommand> {
        if i == 0 {
            Some(CellCommand::Padding)
        } else if i == 1 {
            Some(CellCommand::Create)
        } else if i == 2 {
            Some(CellCommand::Created)
        } else if i == 3 {
            Some(CellCommand::Relay)
        } else if i == 4 {
            Some(CellCommand::Destroy)
        } else {
            None
        }
    }

    pub fn index(self) -> (r: u32)
        ensures
            r == self.spec_index(),
    {
        match self {
            CellCommand::Padding => 0,
            CellCommand::Create => 1,
            CellCommand::Created => 2,
            CellCommand::Relay => 3,
            CellCommand::Destroy => 4,
        }
    }

    pub fn at(i: u32) -> (r: Option<CellCommand>)
        ensures
            r == CellCommand::spec_at(i),
    {
        if i == 0 {
            Some(CellCommand::Padding)
        } else if i == 1 {
            Some(CellCommand::Create)
        } else if i == 2 {
            Some(CellCommand::Created)
        } else if i == 3 {
            Some(CellCommand::Relay)
        } else if i == 4 {
            Some(CellCommand::Destroy)
        } else {
            None
        }
    }

    /// The number of the command in the protocol's own numbering.
    pub open spec fn spec_code(self) -> u8 {
        match self {
            CellCommand::Padding => 0,
            CellCommand::Create => 1,
            CellCommand::Created => 2,
            CellCommand::Relay => 3,
            CellCommand::Destroy => 4,
        }
    }

    pub fn code(self) -> (r: u8)
        ensures
            r == self.spec_code(),
    {
        match self {
            CellCommand::Padding => 0,
            CellCommand::Create => 1,
            CellCommand::Created => 2,
            CellCommand::Relay => 3,
            CellCommand::Destroy => 4,
        }
    }
}

/// What a relay cell asks of the hop that recognizes it.
#[derive(Debug, Clone, Copy, PartialEq, Eq, Structural)]
pub enum RelayCommand {
    Begin,
    Data,
    End,
    Connected,
    SendMe,
    Extend,
    Extended,
    Truncate,
    Truncated,
    Drop,
    Resolve,
    Resolved,
    BeginDir,
    Extend2,
    Extended2,
    EstablishIntro,
    Introduce1,
    Introduce2,
    Rendezvous1,
    Rendezvous2,
    IntroEstablished,
    EstablishRendezvous,
    RendezvousEstablished,
}

impl RelayCommand {
    /// The place of the command in the list of commands, which stands for it on the wire.
    pub open spec fn spec_index(self) -> u32 {
        match self {
            RelayCommand::Begin => 0,
            RelayCommand::Data => 1,
            RelayCommand::End => 2,
            RelayCommand::Connected => 3,
            RelayCommand::SendMe => 4,
            RelayCommand::Extend => 5,
            RelayCommand::Extended => 6,
            RelayCommand::Truncate => 7,
            RelayCommand::Truncated => 8,
            RelayCommand::Drop => 9,
            RelayCommand::Resolve => 10,
            RelayCommand::Resolved => 11,
            RelayCommand::BeginDir => 12,
            RelayCommand::Extend2 => 13,
            RelayCommand::Extended2 => 14,
            RelayCommand::EstablishIntro => 15,
            RelayCommand::Introduce1 => 16,
            RelayCommand::Introduce2 => 17,
            RelayCommand::Rendezvous1 => 18,
            RelayCommand::Rendezvous2 => 19,
            RelayCommand::IntroEstablished => 20,
            RelayCommand::EstablishRendezvous => 21,
            RelayCommand::RendezvousEstablished => 22,
        }
    }

    /// The command at a place in the list of commands.
    pub open spec fn spec_at(i: u32) -> Option<RelayCommand> {
        if i == 0 {
            Some(RelayCommand::Begin)
        } else if i == 1 {
            Some(RelayCommand::Data)
        } else if i == 2 {
            Some(RelayCommand::End)
        } else if i == 3 {
            Some(RelayCommand::Connected)
        } else if i == 4 {
            Some(RelayCommand::SendMe)
        } else if i == 5 {
            Some(RelayCommand::Extend)
        } else if i == 6 {
            Some(RelayCommand::Extended)
        } else if i == 7 {
            Some(RelayCommand::Truncate)
        } else if i == 8 {
            Some(RelayCommand::Truncated)
        } else if i == 9 {
            Some(RelayCommand::Drop)
        } else if i == 10 {
            Some(RelayCommand::Resolve)
        } else if i == 11 {
            Some(RelayCommand::Resolved)
        } else if i == 12 {
            Some(RelayCommand::BeginDir)
        } else if i == 13 {
            Some(RelayCommand::Extend2)
        } else if i == 14 {
            Some(RelayCommand::Extended2)
        } else if i == 15 {
            Some(RelayCommand::EstablishIntro)
        } else if i == 16 {
            Some(RelayCommand::Introduce1)
        } else if i == 17 {
            Some(RelayCommand::Introduce2)
        } else if i == 18 {
            Some(RelayCommand::Rendezvous1)
        } else if i == 19 {
            Some(RelayCommand::Rendezvous2)
        } else if i == 20 {
            Some(RelayCommand::IntroEstablished)
        } else if i == 21 {
            Some(RelayCommand::EstablishRendezvous)
        } else if i == 22 {
            Some(RelayCommand::RendezvousEstablished)
        } else {
            None
        }
    }

    pub fn index(self) -> (r: u32)
        ensures
            r == self.spec_index(),
    {
        match self {
            RelayCommand::Begin => 0,
            RelayCommand::Data => 1,
            RelayCommand::End => 2,
            RelayCommand::Connected => 3,
            RelayCommand::SendMe => 4,
            RelayCommand::Extend => 5,
            RelayCommand::Extended => 6,
            RelayCommand::Truncate => 7,
            RelayCommand::Truncated => 8,
            RelayCommand::Drop => 9,
            RelayCommand::Resolve => 10,
            RelayCommand::Resolved => 11,
            RelayCommand::BeginDir => 12,
            RelayCommand::Extend2 => 13,
            RelayCommand::Extended2 => 14,
            RelayCommand::EstablishIntro => 15,
            RelayCommand::Introduce1 => 16,
            RelayCommand::Introduce2 => 17,
            RelayCommand::Rendezvous1 => 18,
            RelayCommand::Rendezvous2 => 19,
            RelayCommand::IntroEstablished => 20,
            RelayCommand::EstablishRendezvous => 21,
            RelayCommand::RendezvousEstablished => 22,
        }
    }

    pub fn at(i: u32) -> (r: Option<RelayCommand>)
        ensures
            r == RelayCommand::spec_at(i),
    {
        if i == 0 {
            Some(RelayCommand::Begin)
        } else if i == 1 {
            Some(RelayCommand::Data)
        } else if i == 2 {
            Some(RelayCommand::End)
        } else if i == 3 {
            Some(RelayCommand::Connected)
        } else if i == 4 {
            Some(RelayCommand::SendMe)
        } else if i == 5 {
            Some(RelayCommand::Extend)
        } else if i == 6 {
            Some(RelayCommand::Extended)
        } else if i == 7 {
            Some(RelayCommand::Truncate)
        } else if i == 8 {
            Some(RelayCommand::Truncated)
        } else if i == 9 {
            Some(RelayCommand::Drop)
        } else if i == 10 {
            Some(RelayCommand::Resolve)
        } else if i == 11 {
            Some(RelayCommand::Resolved)
        } else if i == 12 {
            Some(RelayCommand::BeginDir)
        } else if i == 13 {
            Some(RelayCommand::Extend2)
        } else if i == 14 {
            Some(RelayCommand::Extended2)
        } else if i == 15 {
            Some(RelayCommand::EstablishIntro)
        } else if i == 16 {
            Some(RelayCommand::Introduce1)
        } else if i == 17 {
            Some(RelayCommand::Introduce2)
        } else if i == 18 {
            Some(RelayCommand::Rendezvous1)
        } else if i == 19 {
            Some(RelayCommand::Rendezvous2)
        } else if i == 20 {
            Some(RelayCommand::IntroEstablished)
        } else if i == 21 {
            Some(RelayCommand::EstablishRendezvous)
        } else if i == 22 {
            Some(RelayCommand::RendezvousEstablished)
        } else {
            None
        }
    }

    /// The number of the command in the protocol's own numbering.
    pub open spec fn spec_code(self) -> u8 {
        match self {
            RelayCommand::Begin => 1,
            RelayCommand::Data => 2,
            RelayCommand::End => 3,
            RelayCommand::Connected => 4,
            RelayCommand::SendMe => 5,
            RelayCommand::Extend => 6,
            RelayCommand::Extended => 7,
            RelayCommand::Truncate => 8,
            RelayCommand::Truncated => 9,
            RelayCommand::Drop => 10,
            RelayCommand::Resolve => 11,
            RelayCommand::Resolved => 12,
            RelayCommand::BeginDir => 13,
            RelayCommand::Extend2 => 14,
            RelayCommand::Extended2 => 15,
            RelayCommand::EstablishIntro => 32,
            RelayCommand::Introduce1 => 33,
            RelayCommand::Introduce2 => 34,
            RelayCommand::Rendezvous1 => 35,
            RelayCommand::Rendezvous2 => 36,
            RelayCommand::IntroEstablished => 37,
            RelayCommand::EstablishRendezvous => 38,
            RelayCommand::RendezvousEstablished => 39,
        }
    }

    pub fn code(self) -> (r: u8)
        ensures
            r == self.spec_code(),
    {
        match self {
            RelayCommand::Begin => 1,
            RelayCommand::Data => 2,
            RelayCommand::End => 3,
            RelayCommand::Connected => 4,
            RelayCommand::SendMe => 5,
            RelayCommand::Extend => 6,
            RelayCommand::Extended => 7,
            RelayCommand::Truncate => 8,
            RelayCommand::Truncated => 9,
            RelayCommand::Drop => 10,
            RelayCommand::Resolve => 11,
            RelayCommand::Resolved => 12,
            RelayCommand::BeginDir => 13,
            RelayCommand::Extend2 => 14,
            RelayCommand::Extended2 => 15,
            RelayCommand::EstablishIntro => 32,
            RelayCommand::Introduce1 => 33,
            RelayCommand::Introduce2 => 34,
            RelayCommand::Rendezvous1 => 35,
            RelayCommand::Rendezvous2 => 36,
            RelayCommand::IntroEstablished => 37,
            RelayCommand::EstablishRendezvous => 38,
            RelayCommand::RendezvousEstablished => 39,
        }
    }
}

/// The unit that travels on a circuit.
#[derive(Debug)]
pub struct Cell {
    pub circ_id: CircuitId,
    pub command: CellCommand,
    pub payload: Vec<u8>,
}

/// What a relayed cell holds under the circuit's encryption.
#[derive(Debug)]
pub struct RelayCell {
    pub stream_id: u16,
    /// Zero means that this hop interprets the command.
    pub recognized: u16,
    pub digest: u32,
    pub command: RelayCommand,
    pub data: Vec<u8>,
}

#[derive(Debug)]
pub enum GossipMessage {
    Update(Vec<RelayDescriptor>),
}

#[derive(Debug)]
pub enum Message {
    Gossip(GossipMessage),
    TorCell(Cell),
}

/// A `Cell` as a mathematical value.
pub ghost struct CellView {
    pub circ_id: u32,
    pub command: CellCommand,
    pub payload: Seq<u8>,
}

/// A `RelayCell` as a mathematical value.
pub ghost struct RelayCellView {
    pub stream_id: u16,
    pub recognized: u16,
    pub digest: u32,
    pub command: RelayCommand,
    pub data: Seq<u8>,
}

/// A `Message` as a mathematical value.
pub ghost enum MessageView {
    Gossip(Seq<RelayView>),
    TorCell(CellView),
}

impl View for Cell {
    type V = CellView;

    open spec fn view(&self) -> CellView {
        CellView { circ_id: self.circ_id, command: self.command, payload: self.payload@ }
    }
}

impl View for RelayCell {
    type V = RelayCellView;

    open spec fn view(&self) -> RelayCellView {
        RelayCellView {
            stream_id: self.stream_id,
            recognized: self.recognized,
            digest: self.digest,
            command: self.command,
            data: self.data@,
        }
    }
}

pub open spec fn relay_views(list: Seq<RelayDescriptor>) -> Seq<RelayView> {
    list.map_values(|d: RelayDescriptor| d@)
}

impl View for Message {
    type V = MessageView;

    open spec fn view(&self) -> MessageView {
        match self {
            Message::Gossip(GossipMessage::Update(list)) => MessageView::Gossip(
                relay_views(list@),
            ),
            Message::TorCell(cell) => MessageView::TorCell(cell@),
        }
    }
}

impl Clone for Cell {
    fn clone(&self) -> (r: Cell)
        ensures
            r@ == self@,
    {
        Cell { circ_id: self.circ_id, command: self.command, payload: self.payload.clone() }
    }
}

impl Clone for RelayCell {
    fn clone(&self) -> (r: RelayCell)
        ensures
            r@ == self@,
    {
        RelayCell {
            stream_id: self.stream_id,
            recognized: self.recognized,
            digest: self.digest,
            command: self.command,
            data: self.data.clone(),
        }
    }
}

impl Clone for GossipMessage {
    fn clone(&self) -> (r: GossipMessage)
        ensures
            Message::Gossip(r)@ == Message::Gossip(*self)@,
    {
        match self {
            GossipMessage::Update(list) => {
                let mut copy: Vec<RelayDescriptor> = Vec::new();
                let n: usize = list.len();
                let mut i: usize = 0;
                assert(relay_views(copy@) =~= relay_views(list@.take(0)));
                while i < n
                    invariant
                        n == list@.len(),
                        i <= n,
                        relay_views(copy@) == relay_views(list@.take(i as int)),
                    decreases n - i,
                {
                    copy.push(list[i].clone());
                    i = i + 1;
                    assert(list@.take(i as int).drop_last() =~= list@.take(i - 1));
                    assert(relay_views(copy@) =~= relay_views(list@.take(i - 1)).push(
                        list@[i - 1]@,
                    ));
                    assert(relay_views(copy@) =~= relay_views(list@.take(i as int)));
                }
                assert(list@.take(n as int) =~= list@);
                GossipMessage::Update(copy)
            },
        }
    }
}

impl Clone for Message {
    fn clone(&self) -> (r: Message)
        ensures
            r@ == self@,
    {
        match self {
            Message::Gossip(gossip) => Message::Gossip(gossip.clone()),
            Message::TorCell(cell) => Message::TorCell(cell.clone()),
        }
    }
}

pub open spec fn put_cell(v: CellView) -> Seq<u8> {
    codec::put_u32(v.circ_id) + codec::put_u32(v.command.spec_index()) + codec::put_bytes(v.payload)
}

pub open spec fn get_cell(s: Seq<u8>) -> Option<CellView> {
    match codec::get_u32(s) {
        None => None,
        Some((circ_id, rest)) => match codec::get_u32(rest) {
            None => None,
            Some((index, rest)) => match CellCommand::spec_at(index) {
                None => None,
                Some(command) => match codec::get_bytes(rest) {
                    None => None,
                    Some((payload, _)) => Some(CellView { circ_id, command, payload }),
                },
            },
        },
    }
}

pub open spec fn put_relay_cell(v: RelayCellView) -> Seq<u8> {
    codec::put_u16(v.stream_id) + codec::put_u16(v.recognized) + codec::put_u32(v.digest)
        + codec::put_u32(v.command.spec_index()) + codec::put_bytes(v.data)
}

pub open spec fn get_relay_cell(s: Seq<u8>) -> Option<RelayCellView> {
    match codec::get_u16(s) {
        None => None,
        Some((stream_id, rest)) => match codec::get_u16(rest) {
            None => None,
            Some((recognized, rest)) => match codec::get_u32(rest) {
                None => None,
                Some((digest, rest)) => match codec::get_u32(rest) {
                    None => None,
                    Some((index, rest)) => match RelayCommand::spec_at(index) {
                        None => None,
                        Some(command) => match codec::get_bytes(rest) {
                            None => None,
                            Some((data, _)) => Some(
                                RelayCellView { stream_id, recognized, digest, command, data },
                            ),
                        },
                    },
                },
            },
        },
    }
}

/// Descriptors one after the other.
pub open spec fn put_relays(list: Seq<RelayView>) -> Seq<u8>
    decreases list.len(),
{
    if list.len() == 0 {
        Seq::empty()
    } else {
        put_relays(list.drop_last()) + descriptor::put_relay(list.last())
    }
}

/// `n` descriptors at the beginning of `s`, behind those that were read before.
pub open spec fn get_relays(s: Seq<u8>, n: nat, before: Seq<RelayView>) -> Option<Seq<RelayView>>
    decreases n,
{
    if n == 0 {
        Some(before)
    } else {
        match descriptor::get_relay(s) {
            None => None,
            Some((d, rest)) => get_relays(rest, (n - 1) as nat, before.push(d)),
        }
    }
}

pub open spec fn put_message(v: MessageView) -> Seq<u8> {
    match v {
        MessageView::Gossip(list) => codec::put_u32(0) + codec::put_u32(0) + codec::put_u64(
            list.len() as u64,
        ) + put_relays(list),
        MessageView::TorCell(cell) => codec::put_u32(1) + put_cell(cell),
    }
}

/// The message at the beginning of `s`; what follows it does no harm.
pub open spec fn get_message(s: Seq<u8>) -> Option<MessageView> {
    match codec::get_u32(s) {
        None => None,
        Some((kind, rest)) => if kind == 0 {
            match codec::get_u32(rest) {
                None => None,
                Some((sort, rest)) => if sort == 0 {
                    match codec::get_u64(rest) {
                        None => None,
                        Some((n, rest)) => match get_relays(rest, n as nat, Seq::empty()) {
                            None => None,
                            Some(list) => Some(MessageView::Gossip(list)),
                        },
                    }
                } else {
                    None
                },
            }
        } else if kind == 1 {
            match get_cell(rest) {
                None => None,
                Some(cell) => Some(MessageView::TorCell(cell)),
            }
        } else {
            None
        },
    }
}

/// A message in its frame, as it is sent.
pub open spec fn message_packet(v: MessageView) -> Seq<u8> {
    packet::framed(put_message(v))
}

/// A cell in its frame, as it is sent.
pub open spec fn cell_packet(v: CellView) -> Seq<u8> {
    message_packet(MessageView::TorCell(v))
}

impl RelayCell {
    pub fn encode(&self) -> (r: Vec<u8>)
        ensures
            r@ == put_relay_cell(self@),
    {
        let mut out: Vec<u8> = Vec::new();
        codec::write_u16(&mut out, self.stream_id);
        codec::write_u16(&mut out, self.recognized);
        codec::write_u32(&mut out, self.digest);
        codec::write_u32(&mut out, self.command.index());
        codec::write_bytes(&mut out, self.data.as_slice());
        assert(out@ =~= put_relay_cell(self@));
        out
    }

    pub fn decode(data: &[u8]) -> (r: Option<RelayCell>)
        ensures
            match get_relay_cell(data@) {
                Some(v) => r matches Some(c) && c@ == v,
                None => r is None,
            },
    {
        let mut input = Reader::new(data);
        let stream_id: u16 = input.read_u16()?;
        let recognized: u16 = input.read_u16()?;
        let digest: u32 = input.read_u32()?;
        let index: u32 = input.read_u32()?;
        let command = RelayCommand::at(index)?;
        let data = input.read_bytes()?;
        Some(RelayCell { stream_id, recognized, digest, command, data })
    }
}

fn write_relays(out: &mut Vec<u8>, list: &[RelayDescriptor])
    ensures
        final(out)@ == old(out)@ + put_relays(relay_views(list@)),
{
    let n: usize = list.len();
    let mut i: usize = 0;
    assert(out@ =~= old(out)@ + put_relays(relay_views(list@).take(0)));
    while i < n
        invariant
            n == list@.len(),
            i <= n,
            out@ == old(out)@ + put_relays(relay_views(list@).take(i as int)),
        decreases n - i,
    {
        descriptor::write_relay(out, &list[i]);
        i = i + 1;
        assert(relay_views(list@).take(i as int).drop_last() =~= relay_views(list@).take(i - 1));
        assert(out@ =~= old(out)@ + put_relays(relay_views(list@).take(i as int)));
    }
    assert(relay_views(list@).take(n as int) =~= relay_views(list@));
}

fn read_relays(input: &mut Reader, n: u64) -> (r: Option<Vec<RelayDescriptor>>)
    ensures
        match get_relays(old(input)@, n as nat, Seq::empty()) {
            Some(list) => r matches Some(v) && relay_views(v@) == list,
            None => r is None,
        },
{
    let mut list: Vec<RelayDescriptor> = Vec::new();
    let mut left: u64 = n;
    assert(relay_views(list@) =~= Seq::empty());
    while left > 0
        invariant
            get_relays(old(input)@, n as nat, Seq::empty()) == get_relays(
                input@,
                left as nat,
                relay_views(list@),
            ),
        decreases left,
    {
        let ghost before = list@;
        let d = descriptor::read_relay(input)?;
        list.push(d);
        left = left - 1;
        assert(relay_views(list@) =~= relay_views(before).push(d@));
    }
    Some(list)
}

impl Message {
    pub fn encode(&self) -> (r: Vec<u8>)
        ensures
            r@ == put_message(self@),
    {
        let mut out: Vec<u8> = Vec::new();
        match self {
            Message::Gossip(GossipMessage::Update(list)) => {
                codec::write_u32(&mut out, 0);
                codec::write_u32(&mut out, 0);
                codec::write_u64(&mut out, list.len() as u64);
                write_relays(&mut out, list.as_slice());
            },
            Message::TorCell(cell) => {
                codec::write_u32(&mut out, 1);
                codec::write_u32(&mut out, cell.circ_id);
                codec::write_u32(&mut out, cell.command.index());
                codec::write_bytes(&mut out, cell.payload.as_slice());
            },
        }
        assert(out@ =~= put_message(self@));
        out
    }

    pub fn decode(data: &[u8]) -> (r: Option<Message>)
        ensures
            match get_message(data@) {
                Some(v) => r matches Some(m) && m@ == v,
                None => r is None,
            },
    {
        let mut input = Reader::new(data);
        let kind: u32 = input.read_u32()?;
        if kind == 0 {
            let sort: u32 = input.read_u32()?;
            if sort != 0 {
                return None;
            }
            let n: u64 = input.read_u64()?;
            let list = read_relays(&mut input, n)?;
            Some(Message::Gossip(GossipMessage::Update(list)))
        } else if kind == 1 {
            let circ_id: u32 = input.read_u32()?;
            let index: u32 = input.read_u32()?;
            let command = CellCommand::at(index)?;
            let payload = input.read_bytes()?;
            Some(Message::TorCell(Cell { circ_id, command, payload }))
        } else {
            None
        }
    }

    /// The message in its frame.
    pub fn packet(&self) -> (r: Vec<u8>)
        ensures
            r@ == message_packet(self@),
    {
        Packet::encapsulate(self.encode())
    }
}

/// A relay cell is read back from its encoding.
pub proof fn law_relay_cell_round_trip(v: RelayCellView)
    requires
        v.data.len() <= u64::MAX,
    ensures
        get_relay_cell(put_relay_cell(v)) == Some(v),
{
    let none = Seq::<u8>::empty();
    let r4 = codec::put_bytes(v.data) + none;
    let r3 = codec::put_u32(v.command.spec_index()) + r4;
    let r2 = codec::put_u32(v.digest) + r3;
    let r1 = codec::put_u16(v.recognized) + r2;
    assert(put_relay_cell(v) =~= codec::put_u16(v.stream_id) + r1);
    codec::lemma_u16_round_trip(v.stream_id, r1);
    codec::lemma_u16_round_trip(v.recognized, r2);
    codec::lemma_u32_round_trip(v.digest, r3);
    codec::lemma_u32_round_trip(v.command.spec_index(), r4);
    codec::lemma_bytes_round_trip(v.data, none);
}

proof fn lemma_cell_round_trip(v: CellView)
    requires
        v.payload.len() <= u64::MAX,
    ensures
        get_message(put_message(MessageView::TorCell(v))) == Some(MessageView::TorCell(v)),
{
    let none = Seq::<u8>::empty();
    let r2 = codec::put_bytes(v.payload) + none;
    let r1 = codec::put_u32(v.command.spec_index()) + r2;
    let r0 = codec::put_u32(v.circ_id) + r1;
    assert(put_cell(v) =~= r0);
    codec::lemma_u32_round_trip(1, r0);
    codec::lemma_u32_round_trip(v.circ_id, r1);
    codec::lemma_u32_round_trip(v.command.spec_index(), r2);
    codec::lemma_bytes_round_trip(v.payload, none);
}

pub proof fn lemma_put_relays_first(list: Seq<RelayView>)
    requires
        list.len() > 0,
    ensures
        put_relays(list) == descriptor::put_relay(list[0]) + put_relays(list.drop_first()),
    decreases list.len(),
{
    let rest = list.drop_first();
    if list.len() == 1 {
        assert(list.drop_last() =~= Seq::empty());
        assert(rest =~= Seq::empty());
        assert(put_relays(list) =~= descriptor::put_relay(list[0]) + put_relays(rest));
    } else {
        lemma_put_relays_first(list.drop_last());
        assert(list.drop_last().drop_first() =~= rest.drop_last());
        assert(put_relays(list) =~= descriptor::put_relay(list[0]) + put_relays(rest));
    }
}

pub proof fn lemma_relays_round_trip(list: Seq<RelayView>, before: Seq<RelayView>, tail: Seq<u8>)
    requires
        forall|i: int| 0 <= i < list.len() ==> descriptor::relay_is_plain(#[trigger] list[i]),
    ensures
        get_relays(put_relays(list) + tail, list.len(), before) == Some(before + list),
    decreases list.len(),
{
    if list.len() == 0 {
        assert(before + list =~= before);
    } else {
        let rest = list.drop_first();
        lemma_put_relays_first(list);
        assert(put_relays(list) + tail =~= descriptor::put_relay(list[0]) + (put_relays(rest)
            + tail));
        descriptor::lemma_relay_round_trip(list[0], put_relays(rest) + tail);
        assert forall|i: int| 0 <= i < rest.len() implies descriptor::relay_is_plain(
            #[trigger] rest[i],
        ) by {
            assert(rest[i] == list[i + 1]);
        }
        lemma_relays_round_trip(rest, before.push(list[0]), tail);
        assert(before.push(list[0]) + rest =~= before + list);
    }
}

/// Whether the wire carries all of a message.
pub open spec fn message_is_plain(v: MessageView) -> bool {
    match v {
        MessageView::Gossip(list) => list.len() <= u64::MAX && forall|i: int|
            0 <= i < list.len() ==> descriptor::relay_is_plain(#[trigger] list[i]),
        MessageView::TorCell(cell) => cell.payload.len() <= u64::MAX,
    }
}

/// A message is read back from its encoding.
pub proof fn law_message_round_trip(v: MessageView)
    requires
        message_is_plain(v),
    ensures
        get_message(put_message(v)) == Some(v),
{
    match v {
        MessageView::TorCell(cell) => lemma_cell_round_trip(cell),
        MessageView::Gossip(list) => {
            let r2 = put_relays(list);
            let r1 = codec::put_u64(list.len() as u64) + r2;
            let r0 = codec::put_u32(0) + r1;
            assert(put_message(v) =~= codec::put_u32(0) + r0);
            codec::lemma_u32_round_trip(0, r0);
            codec::lemma_u32_round_trip(0, r1);
            codec::lemma_u64_round_trip(list.len() as u64, r2);
            lemma_relays_round_trip(list, Seq::empty(), Seq::empty());
            assert(r2 + Seq::<u8>::empty() =~= r2);
            assert(Seq::<RelayView>::empty() + list =~= list);
        },
    }
}

/// A message that fits in a packet arrives as it was sent.
pub proof fn law_packet_carries_message(v: MessageView, rest: Seq<u8>)
    requires
        message_is_plain(v),
        put_message(v).len() <= packet::MAX_PACKET_LEN,
    ensures
        packet::unframed(message_packet(v) + rest) matches Ok(payload) && get_message(payload)
            == Some(v),
{
    packet::law_framing_round_trip(put_message(v), rest);
    law_message_round_trip(v);
}

} // verus!
