//! What holds of data over a whole connection: nothing is lost, added or reordered, and the windows
//! hold it back.

use crate::circuit;
use crate::circuit::{CircuitView, ConnectionId, Stream};
use crate::crypto::CipherView;
use crate::link;
use crate::link::{DownloadView, LinkView, UploadView};
use crate::onion;
use crate::onion_laws;
use crate::relay;
use crate::relay::{ActionView, Ending, ExitReadView};
use crate::wire;
use crate::wire::{CircuitId, MessageView, RelayCellView, RelayCommand};
use vstd::prelude::*;

verus! {

/// What happens at a client's end while data flows: the local application hands over a piece of data,
/// or a cell comes that the other end has sent.
pub ghost enum Turn {
    Upload(Seq<u8>),
    Arrive(RelayCellView),
}

/// How far a connection has come.
pub ghost struct Flow {
    pub link: LinkView,
    /// The packets that were sent on the circuit.
    pub sent: Seq<Seq<u8>>,
    /// What was taken from the local application.
    pub accepted: Seq<u8>,
    /// In how many pieces it was taken.
    pub pieces: nat,
    /// What was written to the local application.
    pub written: Seq<u8>,
    /// Whether the other end has ended the stream.
    pub ended: bool,
    /// Whether a keystream or a window could count no further.
    pub failed: bool,
}

/// The beginning of a flow.
pub open spec fn flow_start(l: LinkView) -> Flow {
    Flow {
        link: l,
        sent: Seq::empty(),
        accepted: Seq::empty(),
        pieces: 0,
        written: Seq::empty(),
        ended: false,
        failed: false,
    }
}

/// The payload in which a cell comes that the other end sent in step.
pub open spec fn arriving(l: LinkView, cell: RelayCellView) -> Seq<u8> {
    wire::put_message(MessageView::TorCell(link::onion_cell(l.circ_id, l.backward, cell)))
}

pub open spec fn flow_turn(f: Flow, turn: Turn) -> Flow {
    if f.failed {
        f
    } else {
        match turn {
            Turn::Upload(data) => match link::upload_step(f.link, data) {
                (l, UploadView::Packet(packet)) => Flow {
                    link: l,
                    sent: f.sent.push(packet),
                    accepted: f.accepted + data,
                    pieces: f.pieces + 1,
                    ..f
                },
                (_, UploadView::Wait) => f,
                (_, UploadView::Exhausted) => Flow { failed: true, ..f },
            },
            Turn::Arrive(cell) => if f.ended {
                f
            } else {
                match link::download_step(f.link, arriving(f.link, cell)) {
                    (l, DownloadView::Skip) => Flow { link: l, ..f },
                    (l, DownloadView::Write { data, answers }) => Flow {
                        link: l,
                        sent: f.sent + answers,
                        written: f.written + data,
                        ..f
                    },
                    (l, DownloadView::Stop) => Flow { link: l, ended: true, ..f },
                    (_, DownloadView::Exhausted) => Flow { failed: true, ..f },
                }
            },
        }
    }
}

/// A flow after these turns.
pub open spec fn flow_after(l: LinkView, turns: Seq<Turn>) -> Flow
    decreases turns.len(),
{
    if turns.len() == 0 {
        flow_start(l)
    } else {
        flow_turn(flow_after(l, turns.drop_last()), turns.last())
    }
}

/// The cells that came, in order.
pub open spec fn arrivals(turns: Seq<Turn>) -> Seq<RelayCellView>
    decreases turns.len(),
{
    if turns.len() == 0 {
        Seq::empty()
    } else {
        match turns.last() {
            Turn::Arrive(cell) => arrivals(turns.drop_last()).push(cell),
            Turn::Upload(_) => arrivals(turns.drop_last()),
        }
    }
}

pub open spec fn has_end(cells: Seq<RelayCellView>) -> bool {
    exists|i: int| 0 <= i < cells.len() && (#[trigger] cells[i]).command == RelayCommand::End
}

/// The data of all `Data` cells, one behind the other.
pub open spec fn all_data(cells: Seq<RelayCellView>) -> Seq<u8>
    decreases cells.len(),
{
    if cells.len() == 0 {
        Seq::empty()
    } else if cells.last().command == RelayCommand::Data {
        all_data(cells.drop_last()) + cells.last().data
    } else {
        all_data(cells.drop_last())
    }
}

/// The cells in front of the first `End`.
pub open spec fn until_end(cells: Seq<RelayCellView>) -> Seq<RelayCellView>
    decreases cells.len(),
{
    if cells.len() == 0 {
        cells
    } else if has_end(cells) {
        until_end(cells.drop_last())
    } else {
        cells
    }
}

/// How many of the cells are a `SendMe` for a stream, or for the circuit.
pub open spec fn sendmes(cells: Seq<RelayCellView>, stream_id: u16) -> nat
    decreases cells.len(),
{
    if cells.len() == 0 {
        0
    } else {
        sendmes(cells.drop_last(), stream_id) + if cells.last().command == RelayCommand::SendMe
            && cells.last().stream_id == stream_id {
            1nat
        } else {
            0nat
        }
    }
}

/// Whether every cell that comes can be written down.
pub open spec fn sizes_fit(turns: Seq<Turn>) -> bool {
    forall|i: int|
        0 <= i < turns.len() ==> ((#[trigger] turns[i]) matches Turn::Arrive(cell) ==> cell.data.len()
            <= u64::MAX && wire::put_relay_cell(cell).len() <= u64::MAX)
}

proof fn lemma_sizes_fit(turns: Seq<Turn>)
    requires
        sizes_fit(turns),
        turns.len() > 0,
    ensures
        sizes_fit(turns.drop_last()),
{
    let rest = turns.drop_last();
    assert forall|i: int| 0 <= i < rest.len() implies ((#[trigger] rest[i]) matches Turn::Arrive(
        cell,
    ) ==> cell.data.len() <= u64::MAX && wire::put_relay_cell(cell).len() <= u64::MAX) by {
        assert(rest[i] == turns[i]);
    }
}

proof fn lemma_push_until_end(cells: Seq<RelayCellView>, cell: RelayCellView)
    ensures
        has_end(cells.push(cell)) == (has_end(cells) || cell.command == RelayCommand::End),
        has_end(cells) ==> until_end(cells.push(cell)) == until_end(cells),
        !has_end(cells) && cell.command == RelayCommand::End ==> until_end(cells.push(cell))
            == cells,
        !has_end(cells) && cell.command != RelayCommand::End ==> until_end(cells.push(cell))
            == cells.push(cell),
        !has_end(cells) ==> until_end(cells) == cells,
{
    let more = cells.push(cell);
    assert(more.drop_last() =~= cells);
    assert(more[cells.len() as int] == cell);
    assert(cell.command == RelayCommand::End ==> has_end(more));
    if has_end(cells) {
        let i = choose|i: int|
            0 <= i < cells.len() && (#[trigger] cells[i]).command == RelayCommand::End;
        assert(more[i] == cells[i]);
    }
    if has_end(more) {
        let i = choose|i: int|
            0 <= i < more.len() && (#[trigger] more[i]).command == RelayCommand::End;
        if i < cells.len() {
            assert(cells[i] == more[i]);
        }
    }
    if !has_end(cells) {
        assert(until_end(cells) == cells);
    }
    if has_end(more) {
        assert(until_end(more) == until_end(cells));
    }
}

/// What an arriving cell comes to.
proof fn lemma_arrival(l: LinkView, cell: RelayCellView)
    requires
        cell.data.len() <= u64::MAX,
        wire::put_relay_cell(cell).len() <= u64::MAX,
        !(link::download_step(l, arriving(l, cell)).1 is Exhausted),
    ensures
        link::download_step(l, arriving(l, cell)) == link::flow_step(
            LinkView { backward: link::layers_after_cell(l.backward, cell), ..l },
            cell,
        ),
{
    let plain = wire::put_relay_cell(cell);
    onion::law_onion_round_trip(l.backward, plain);
    wire::law_message_round_trip(
        MessageView::TorCell(link::onion_cell(l.circ_id, l.backward, cell)),
    );
    if onion::have_room(l.backward, plain.len()) {
        onion_laws::law_onion_cells_are_received(l.circ_id, l.backward, cell);
    }
}

/// What the local application is given is the data of the cells that came in front of the first
/// `End`, one behind the other, and nothing else.
pub proof fn law_downloads_are_complete(l: LinkView, turns: Seq<Turn>)
    requires
        sizes_fit(turns),
        !flow_after(l, turns).failed,
    ensures
        flow_after(l, turns).written == all_data(until_end(arrivals(turns))),
        flow_after(l, turns).ended == has_end(arrivals(turns)),
    decreases turns.len(),
{
    if turns.len() > 0 {
        let before = flow_after(l, turns.drop_last());
        lemma_sizes_fit(turns);
        law_downloads_are_complete(l, turns.drop_last());
        match turns.last() {
            Turn::Arrive(cell) => {
                assert(turns[turns.len() - 1] == turns.last());
                let cells = arrivals(turns.drop_last());
                lemma_push_until_end(cells, cell);
                assert(cells.push(cell).drop_last() =~= cells);
                if !before.ended {
                    lemma_arrival(before.link, cell);
                }
            },
            Turn::Upload(_) => {},
        }
    }
}

/// The ciphers after these cells.
pub open spec fn layers_after_cells(layers: Seq<CipherView>, cells: Seq<RelayCellView>) -> Seq<
    CipherView,
>
    decreases cells.len(),
{
    if cells.len() == 0 {
        layers
    } else {
        link::layers_after_cell(layers_after_cells(layers, cells.drop_last()), cells.last())
    }
}

/// These cells under the layers of a circuit, one behind the other.
pub open spec fn onion_packets(
    circ_id: CircuitId,
    layers: Seq<CipherView>,
    cells: Seq<RelayCellView>,
) -> Seq<Seq<u8>>
    decreases cells.len(),
{
    if cells.len() == 0 {
        Seq::empty()
    } else {
        onion_packets(circ_id, layers, cells.drop_last()).push(
            link::onion_packet(
                circ_id,
                layers_after_cells(layers, cells.drop_last()),
                cells.last(),
            ),
        )
    }
}

/// Whether these are the cells that a flow has sent: data on the data stream, and `SendMe`.
pub open spec fn has_sent(l: LinkView, f: Flow, cells: Seq<RelayCellView>) -> bool {
    &&& f.sent == onion_packets(l.circ_id, l.forward, cells)
    &&& f.link.forward == layers_after_cells(l.forward, cells)
    &&& f.link.circ_id == l.circ_id
    &&& f.accepted == all_data(cells)
    &&& forall|i: int|
        0 <= i < cells.len() ==> ((#[trigger] cells[i]) == link::data_cell(cells[i].data)
            || cells[i] == circuit::sendme(0) || cells[i] == circuit::sendme(link::DATA_STREAM))
}

/// Whether every piece that the local application hands over is as long as one that is read from it:
/// at least one byte, and at most `UPLOAD_CHUNK`.
pub open spec fn pieces_fit(turns: Seq<Turn>) -> bool {
    forall|i: int|
        0 <= i < turns.len() ==> ((#[trigger] turns[i]) matches Turn::Upload(data) ==> 1
            <= data.len() <= link::UPLOAD_CHUNK)
}

/// Whether every `Data` cell carries at least one byte, and at most `UPLOAD_CHUNK`.
pub open spec fn cells_fit(cells: Seq<RelayCellView>) -> bool {
    forall|i: int|
        0 <= i < cells.len() ==> ((#[trigger] cells[i]).command == RelayCommand::Data ==> 1
            <= cells[i].data.len() <= link::UPLOAD_CHUNK)
}

proof fn lemma_pieces_fit(turns: Seq<Turn>)
    requires
        turns.len() > 0,
    ensures
        pieces_fit(turns) ==> pieces_fit(turns.drop_last()) && (turns.last() matches Turn::Upload(
            data,
        ) ==> 1 <= data.len() <= link::UPLOAD_CHUNK),
{
    let rest = turns.drop_last();
    if pieces_fit(turns) {
        assert(turns[turns.len() - 1] == turns.last());
        assert forall|i: int| 0 <= i < rest.len() implies ((
        #[trigger] rest[i]) matches Turn::Upload(data) ==> 1 <= data.len() <= link::UPLOAD_CHUNK) by {
            assert(rest[i] == turns[i]);
        }
    }
}

proof fn lemma_send_one(l: LinkView, f: Flow, g: Flow, cells: Seq<RelayCellView>, cell: RelayCellView)
    requires
        has_sent(l, f, cells),
        cell == link::data_cell(cell.data) || cell == circuit::sendme(0) || cell == circuit::sendme(
            link::DATA_STREAM,
        ),
        g.sent == f.sent.push(f.link.packet(cell)),
        g.link.forward == f.link.sent(cell).forward,
        g.link.circ_id == f.link.circ_id,
        g.accepted == if cell.command == RelayCommand::Data {
            f.accepted + cell.data
        } else {
            f.accepted
        },
    ensures
        has_sent(l, g, cells.push(cell)),
        cells_fit(cells) && (cell.command == RelayCommand::Data ==> 1 <= cell.data.len()
            <= link::UPLOAD_CHUNK) ==> cells_fit(cells.push(cell)),
{
    let more = cells.push(cell);
    assert(more.drop_last() =~= cells);
    assert forall|i: int| 0 <= i < more.len() implies ((#[trigger] more[i]) == link::data_cell(
        more[i].data,
    ) || more[i] == circuit::sendme(0) || more[i] == circuit::sendme(link::DATA_STREAM)) by {
        if i < cells.len() {
            assert(more[i] == cells[i]);
        }
    }
    if cells_fit(cells) && (cell.command == RelayCommand::Data ==> 1 <= cell.data.len()
        <= link::UPLOAD_CHUNK) {
        assert forall|i: int|
            0 <= i < more.len() && (#[trigger] more[i]).command
                == RelayCommand::Data implies 1 <= more[i].data.len() <= link::UPLOAD_CHUNK by {
            if i < cells.len() {
                assert(more[i] == cells[i]);
            }
        }
    }
}

/// What is taken from the local application goes out, whole and in order, as the data of `Data` cells
/// of the data stream, under all layers of the circuit. The only other cells are `SendMe`. Pieces of
/// one to `UPLOAD_CHUNK` bytes go out in cells of one to `UPLOAD_CHUNK` bytes.
pub proof fn law_uploads_are_complete(l: LinkView, turns: Seq<Turn>)
    requires
        sizes_fit(turns),
        !flow_after(l, turns).failed,
    ensures
        exists|cells: Seq<RelayCellView>|
            #[trigger] has_sent(l, flow_after(l, turns), cells) && (pieces_fit(turns) ==> cells_fit(
                cells,
            )),
    decreases turns.len(),
{
    let after = flow_after(l, turns);
    if turns.len() == 0 {
        assert(has_sent(l, after, Seq::empty()) && cells_fit(Seq::empty()));
    } else {
        let before = flow_after(l, turns.drop_last());
        lemma_sizes_fit(turns);
        lemma_pieces_fit(turns);
        law_uploads_are_complete(l, turns.drop_last());
        let cells = choose|cells: Seq<RelayCellView>|
            #[trigger] has_sent(l, before, cells) && (pieces_fit(turns.drop_last()) ==> cells_fit(
                cells,
            ));
        match turns.last() {
            Turn::Upload(data) => {
                if link::upload_step(before.link, data).1 is Packet {
                    let cell = link::data_cell(data);
                    lemma_send_one(l, before, after, cells, cell);
                } else {
                    assert(has_sent(l, after, cells));
                }
            },
            Turn::Arrive(cell) => {
                assert(turns[turns.len() - 1] == turns.last());
                if before.ended {
                    assert(has_sent(l, after, cells));
                } else {
                    lemma_arrival(before.link, cell);
                    lemma_answers_sent(l, before, after, cells, cell);
                }
            },
        }
    }
}

proof fn lemma_answers_sent(
    l: LinkView,
    before: Flow,
    after: Flow,
    cells: Seq<RelayCellView>,
    cell: RelayCellView,
)
    requires
        has_sent(l, before, cells),
        !before.failed,
        !before.ended,
        after == flow_turn(before, Turn::Arrive(cell)),
        !after.failed,
        link::download_step(before.link, arriving(before.link, cell)) == link::flow_step(
            LinkView {
                backward: link::layers_after_cell(before.link.backward, cell),
                ..before.link
            },
            cell,
        ),
    ensures
        exists|more: Seq<RelayCellView>|
            #[trigger] has_sent(l, after, more) && (cells_fit(cells) ==> cells_fit(more)),
{
    let l0 = LinkView {
        backward: link::layers_after_cell(before.link.backward, cell),
        ..before.link
    };
    if cell.command == RelayCommand::Data {
        let (l1, a1) = link::circuit_credit(l0);
        let first = a1.unwrap();
        let f1 = Flow { link: l1, sent: before.sent + first, ..before };
        let cells1 = if first.len() == 0 {
            cells
        } else {
            cells.push(circuit::sendme(0))
        };
        if first.len() == 0 {
            assert(before.sent + first =~= before.sent);
        } else {
            assert(before.sent + first =~= before.sent.push(l0.packet(circuit::sendme(0))));
            lemma_send_one(l, before, f1, cells, circuit::sendme(0));
        }
        assert(has_sent(l, f1, cells1));
        let (l2, a2) = link::stream_credit(l1, first);
        let both = a2.unwrap();
        if both == first {
            assert(after.sent == f1.sent);
            assert(has_sent(l, after, cells1));
        } else {
            let cell2 = circuit::sendme(link::DATA_STREAM);
            assert(before.sent + both =~= f1.sent.push(l1.packet(cell2)));
            lemma_send_one(l, f1, after, cells1, cell2);
        }
    } else {
        assert(has_sent(l, after, cells));
    }
}

/// The windows hold data back: what has been taken and not yet been acknowledged is what the windows
/// have shrunk by, as long as they can count the acknowledgements, and never more. From full windows, no more than 1000 pieces are under way on the circuit and no
/// more than 500 on the stream.
pub proof fn law_windows_hold_data_back(l: LinkView, turns: Seq<Turn>)
    requires
        sizes_fit(turns),
        !flow_after(l, turns).failed,
    ensures
        ({
            let f = flow_after(l, turns);
            let seen = until_end(arrivals(turns));
            let circuit_credit = l.windows.circuit_package + circuit::CIRCUIT_WINDOW_INCREMENT
                * sendmes(seen, 0);
            let stream_credit = l.windows.stream_package + circuit::STREAM_WINDOW_INCREMENT
                * sendmes(seen, link::DATA_STREAM);
            &&& f.link.windows.circuit_package + f.pieces <= circuit_credit
            &&& f.link.windows.stream_package + f.pieces <= stream_credit
            &&& circuit_credit <= u16::MAX ==> f.link.windows.circuit_package + f.pieces
                == circuit_credit
            &&& stream_credit <= u16::MAX ==> f.link.windows.stream_package + f.pieces
                == stream_credit
            &&& l.windows == link::full_windows() ==> f.pieces <= 1000 + 100 * sendmes(seen, 0)
                && f.pieces <= 500 + 50 * sendmes(seen, link::DATA_STREAM)
        }),
    decreases turns.len(),
{
    if turns.len() > 0 {
        let before = flow_after(l, turns.drop_last());
        lemma_sizes_fit(turns);
        law_windows_hold_data_back(l, turns.drop_last());
        law_downloads_are_complete(l, turns.drop_last());
        match turns.last() {
            Turn::Arrive(cell) => {
                assert(turns[turns.len() - 1] == turns.last());
                let cells = arrivals(turns.drop_last());
                lemma_push_until_end(cells, cell);
                assert(cells.push(cell).drop_last() =~= cells);
                if !before.ended {
                    lemma_arrival(before.link, cell);
                }
            },
            Turn::Upload(_) => {},
        }
    }
}

/// What a turn may take from the keystreams of the way out.
pub open spec fn forward_cost(turn: Turn) -> nat {
    match turn {
        Turn::Upload(data) => wire::put_relay_cell(link::data_cell(data)).len(),
        Turn::Arrive(_) => wire::put_relay_cell(circuit::sendme(0)).len() + wire::put_relay_cell(
            circuit::sendme(link::DATA_STREAM),
        ).len(),
    }
}

/// What a turn takes from the keystreams of the way back.
pub open spec fn backward_cost(turn: Turn) -> nat {
    match turn {
        Turn::Upload(_) => 0,
        Turn::Arrive(cell) => wire::put_relay_cell(cell).len(),
    }
}

pub open spec fn forward_costs(turns: Seq<Turn>) -> nat
    decreases turns.len(),
{
    if turns.len() == 0 {
        0
    } else {
        forward_costs(turns.drop_last()) + forward_cost(turns.last())
    }
}

pub open spec fn backward_costs(turns: Seq<Turn>) -> nat
    decreases turns.len(),
{
    if turns.len() == 0 {
        0
    } else {
        backward_costs(turns.drop_last()) + backward_cost(turns.last())
    }
}

/// Whether the delivery windows of a client's end are within one increment of full.
pub open spec fn delivers(w: link::Windows) -> bool {
    &&& circuit::CIRCUIT_WINDOW_START - circuit::CIRCUIT_WINDOW_INCREMENT < w.circuit_deliver
        <= circuit::CIRCUIT_WINDOW_START
    &&& circuit::STREAM_WINDOW_START - circuit::STREAM_WINDOW_INCREMENT < w.stream_deliver
        <= circuit::STREAM_WINDOW_START
}

/// Whether no keystream has moved by more than so many bytes.
pub open spec fn moved_at_most(
    before: Seq<CipherView>,
    after: Seq<CipherView>,
    bytes: nat,
) -> bool {
    &&& before.len() == after.len()
    &&& forall|i: int|
        0 <= i < before.len() ==> (#[trigger] after[i]).used <= before[i].used + bytes
}

/// As far as keystreams last, they last for what is sent next.
proof fn lemma_room(
    before: Seq<CipherView>,
    after: Seq<CipherView>,
    spent: nat,
    next: nat,
    all: nat,
)
    requires
        moved_at_most(before, after, spent),
        onion::have_room(before, all),
        spent + next <= all,
    ensures
        onion::have_room(after, next),
        moved_at_most(before, onion::layers_after(after, next), spent + next),
        moved_at_most(before, after, spent + next),
{
    assert forall|i: int| 0 <= i < after.len() implies (#[trigger] after[i]).has_room(next) by {
        assert(before[i].has_room(all));
    }
    let moved = onion::layers_after(after, next);
    assert forall|i: int| 0 <= i < before.len() implies (#[trigger] moved[i]).used
        <= before[i].used + (spent + next) by {
        assert(moved[i] == after[i].after(next));
    }
}

/// Data can be counted, and answered if an increment is used up.
proof fn lemma_credit(l: LinkView, start: Seq<CipherView>, spent: nat, all: nat)
    requires
        delivers(l.windows),
        moved_at_most(start, l.forward, spent),
        onion::have_room(start, all),
        spent + wire::put_relay_cell(circuit::sendme(0)).len() + wire::put_relay_cell(
            circuit::sendme(link::DATA_STREAM),
        ).len() <= all,
    ensures
        ({
            let (after, answers) = link::data_credit(l);
            &&& answers is Some
            &&& delivers(after.windows)
            &&& after.backward == l.backward
            &&& moved_at_most(
                start,
                after.forward,
                spent + wire::put_relay_cell(circuit::sendme(0)).len() + wire::put_relay_cell(
                    circuit::sendme(link::DATA_STREAM),
                ).len(),
            )
        }),
{
    let a = wire::put_relay_cell(circuit::sendme(0)).len();
    let b = wire::put_relay_cell(circuit::sendme(link::DATA_STREAM)).len();
    lemma_room(start, l.forward, spent, a, all);
    let (mid, first) = link::circuit_credit(l);
    assert(first is Some);
    assert(moved_at_most(start, mid.forward, spent + a));
    lemma_room(start, mid.forward, spent + a, b, all);
}

/// A flow lasts as long as the keystreams do. If those of the way out last for all that is handed
/// over and for two `SendMe` to every cell that comes, and those of the way back for all that comes,
/// nothing fails: neither end has to stop. So the laws on complete uploads and downloads hold up to
/// the end of a keystream, which is more than 10^20 bytes long.
pub proof fn law_flows_last(l: LinkView, turns: Seq<Turn>)
    requires
        sizes_fit(turns),
        delivers(l.windows),
        onion::have_room(l.forward, forward_costs(turns)),
        onion::have_room(l.backward, backward_costs(turns)),
    ensures
        ({
            let f = flow_after(l, turns);
            &&& !f.failed
            &&& delivers(f.link.windows)
            &&& moved_at_most(l.forward, f.link.forward, forward_costs(turns))
            &&& moved_at_most(l.backward, f.link.backward, backward_costs(turns))
        }),
    decreases turns.len(),
{
    if turns.len() > 0 {
        let rest = turns.drop_last();
        let before = flow_after(l, rest);
        let out = forward_costs(rest);
        let back = backward_costs(rest);
        lemma_sizes_fit(turns);
        assert(onion::have_room(l.forward, out)) by {
            assert forall|i: int| 0 <= i < l.forward.len() implies (
            #[trigger] l.forward[i]).has_room(out) by {
                assert(l.forward[i].has_room(forward_costs(turns)));
            }
        }
        assert(onion::have_room(l.backward, back)) by {
            assert forall|i: int| 0 <= i < l.backward.len() implies (
            #[trigger] l.backward[i]).has_room(back) by {
                assert(l.backward[i].has_room(backward_costs(turns)));
            }
        }
        law_flows_last(l, rest);
        lemma_room(
            l.forward,
            before.link.forward,
            out,
            forward_cost(turns.last()),
            forward_costs(turns),
        );
        lemma_room(
            l.backward,
            before.link.backward,
            back,
            backward_cost(turns.last()),
            backward_costs(turns),
        );
        match turns.last() {
            Turn::Upload(_) => {},
            Turn::Arrive(cell) => {
                assert(turns[turns.len() - 1] == turns.last());
                if !before.ended {
                    onion_laws::law_onion_cells_are_received(
                        before.link.circ_id,
                        before.link.backward,
                        cell,
                    );
                    let seen = LinkView {
                        backward: link::layers_after_cell(before.link.backward, cell),
                        ..before.link
                    };
                    assert(before.link.after_receive(arriving(before.link, cell)) == seen);
                    lemma_credit(seen, l.forward, out, forward_costs(turns));
                }
            },
        }
    }
}

/// No byte of a connection is lost, added or reordered, as long as the keystreams last. What is taken
/// from the local application goes out as the data of `Data` cells of the data stream, of one to
/// `UPLOAD_CHUNK` bytes each; what it is given is the data of the cells that came in front of the first
/// `End`, and nothing else.
pub proof fn law_connections_are_complete(l: LinkView, turns: Seq<Turn>)
    requires
        sizes_fit(turns),
        pieces_fit(turns),
        delivers(l.windows),
        onion::have_room(l.forward, forward_costs(turns)),
        onion::have_room(l.backward, backward_costs(turns)),
    ensures
        exists|cells: Seq<RelayCellView>|
            #[trigger] has_sent(l, flow_after(l, turns), cells) && cells_fit(cells),
        flow_after(l, turns).written == all_data(until_end(arrivals(turns))),
        flow_after(l, turns).ended == has_end(arrivals(turns)),
{
    law_flows_last(l, turns);
    law_uploads_are_complete(l, turns);
    law_downloads_are_complete(l, turns);
}

/// Nothing goes out through a closed window, and what waits is not lost: the link is as it was.
pub proof fn law_closed_windows_send_nothing(l: LinkView, data: Seq<u8>)
    requires
        l.windows.circuit_package == 0 || l.windows.stream_package == 0,
    ensures
        link::upload_step(l, data) == (l, UploadView::Wait),
{
}

/// The packets that actions send.
pub open spec fn packets_sent(actions: Seq<ActionView>) -> Seq<Seq<u8>>
    decreases actions.len(),
{
    if actions.len() == 0 {
        Seq::empty()
    } else {
        match actions.last() {
            ActionView::Send { packet, .. } => packets_sent(actions.drop_last()).push(packet),
            _ => packets_sent(actions.drop_last()),
        }
    }
}

/// What actions write to an exit connection.
pub open spec fn bytes_written(actions: Seq<ActionView>, to: ConnectionId) -> Seq<u8>
    decreases actions.len(),
{
    if actions.len() == 0 {
        Seq::empty()
    } else {
        match actions.last() {
            ActionView::Write { conn, data } => if conn == to {
                bytes_written(actions.drop_last(), to) + data
            } else {
                bytes_written(actions.drop_last(), to)
            },
            _ => bytes_written(actions.drop_last(), to),
        }
    }
}

/// How far a relay has come with the data of a circuit.
pub ghost struct Delivery {
    pub circuit: CircuitView,
    pub actions: Seq<ActionView>,
    /// Whether a keystream or a window could count no further.
    pub failed: bool,
}

/// What a relay makes of these `Data` cells.
pub open spec fn delivery(c: CircuitView, conn: ConnectionId, cells: Seq<RelayCellView>) -> Delivery
    decreases cells.len(),
{
    if cells.len() == 0 {
        Delivery { circuit: c, actions: Seq::empty(), failed: false }
    } else {
        let before = delivery(c, conn, cells.drop_last());
        if before.failed {
            before
        } else {
            let (after, step) = relay::data_step(before.circuit, conn, cells.last());
            Delivery {
                circuit: after,
                actions: before.actions + step.actions,
                failed: step.end != Ending::Continue,
            }
        }
    }
}

/// How many of the cells are on a stream.
pub open spec fn on_stream(cells: Seq<RelayCellView>, stream_id: u16) -> nat
    decreases cells.len(),
{
    if cells.len() == 0 {
        0
    } else {
        on_stream(cells.drop_last(), stream_id) + if cells.last().stream_id == stream_id {
            1nat
        } else {
            0nat
        }
    }
}

/// The data of the cells on a stream, one behind the other.
pub open spec fn stream_data(cells: Seq<RelayCellView>, stream_id: u16) -> Seq<u8>
    decreases cells.len(),
{
    if cells.len() == 0 {
        Seq::empty()
    } else if cells.last().stream_id == stream_id {
        stream_data(cells.drop_last(), stream_id) + cells.last().data
    } else {
        stream_data(cells.drop_last(), stream_id)
    }
}

/// The `SendMe` that is owed to the circuit for the last of these cells, if one is: for every
/// hundredth cell.
pub open spec fn circuit_due(cells: Seq<RelayCellView>) -> Seq<RelayCellView> {
    if cells.len() % 100 == 0 {
        seq![circuit::sendme(0)]
    } else {
        Seq::empty()
    }
}

/// The `SendMe` that is owed to the stream for the last of these cells, if one is: for every
/// fiftieth cell on it.
pub open spec fn stream_due(cells: Seq<RelayCellView>, stream_id: u16) -> Seq<RelayCellView> {
    if cells.last().stream_id == stream_id && on_stream(cells, stream_id) % 50 == 0 {
        seq![circuit::sendme(stream_id)]
    } else {
        Seq::empty()
    }
}

/// Every `SendMe` that is owed for these cells, in order.
pub open spec fn owed(cells: Seq<RelayCellView>, stream_id: u16) -> Seq<RelayCellView>
    decreases cells.len(),
{
    if cells.len() == 0 {
        Seq::empty()
    } else {
        owed(cells.drop_last(), stream_id) + circuit_due(cells) + stream_due(cells, stream_id)
    }
}

/// The cipher after these cells.
pub open spec fn cipher_after_cells(
    cipher: Option<CipherView>,
    cells: Seq<RelayCellView>,
) -> Option<CipherView>
    decreases cells.len(),
{
    if cells.len() == 0 {
        cipher
    } else {
        circuit::cipher_after(cipher_after_cells(cipher, cells.drop_last()), cells.last())
    }
}

/// These cells under the cipher of a hop, one behind the other.
pub open spec fn sealed_packets(
    circ_id: CircuitId,
    cipher: Option<CipherView>,
    cells: Seq<RelayCellView>,
) -> Seq<Seq<u8>>
    decreases cells.len(),
{
    if cells.len() == 0 {
        Seq::empty()
    } else {
        sealed_packets(circ_id, cipher, cells.drop_last()).push(
            circuit::sealed_packet(
                circ_id,
                cipher_after_cells(cipher, cells.drop_last()),
                cells.last(),
            ),
        )
    }
}

proof fn lemma_join(a: Seq<ActionView>, b: Seq<ActionView>, to: ConnectionId)
    ensures
        packets_sent(a + b) == packets_sent(a) + packets_sent(b),
        bytes_written(a + b, to) == bytes_written(a, to) + bytes_written(b, to),
    decreases b.len(),
{
    if b.len() == 0 {
        assert(a + b =~= a);
        assert(packets_sent(a) + packets_sent(b) =~= packets_sent(a));
        assert(bytes_written(a, to) + bytes_written(b, to) =~= bytes_written(a, to));
    } else {
        lemma_join(a, b.drop_last(), to);
        assert((a + b).drop_last() =~= a + b.drop_last());
        assert((a + b).last() == b.last());
        assert(packets_sent(a + b) =~= packets_sent(a) + packets_sent(b));
        assert(bytes_written(a + b, to) =~= bytes_written(a, to) + bytes_written(b, to));
    }
}

proof fn lemma_act(a: Seq<ActionView>, action: ActionView, to: ConnectionId)
    ensures
        packets_sent(a.push(action)) == match action {
            ActionView::Send { packet, .. } => packets_sent(a).push(packet),
            _ => packets_sent(a),
        },
        bytes_written(a.push(action), to) == match action {
            ActionView::Write { conn, data } => if conn == to {
                bytes_written(a, to) + data
            } else {
                bytes_written(a, to)
            },
            _ => bytes_written(a, to),
        },
{
    assert(a.push(action).drop_last() =~= a);
}

proof fn lemma_seal_one(
    circ_id: CircuitId,
    cipher: Option<CipherView>,
    cells: Seq<RelayCellView>,
    cell: RelayCellView,
)
    ensures
        sealed_packets(circ_id, cipher, cells.push(cell)) == sealed_packets(
            circ_id,
            cipher,
            cells,
        ).push(circuit::sealed_packet(circ_id, cipher_after_cells(cipher, cells), cell)),
        cipher_after_cells(cipher, cells.push(cell)) == circuit::cipher_after(
            cipher_after_cells(cipher, cells),
            cell,
        ),
{
    assert(cells.push(cell).drop_last() =~= cells);
}

/// Whether a circuit is where a number of cells leaves it: windows, streams and cipher.
pub open spec fn delivered(
    c: CircuitView,
    stream_id: u16,
    cells: Seq<RelayCellView>,
    after: CircuitView,
) -> bool {
    &&& after.id == c.id
    &&& after.streams.dom() == c.streams.dom()
    &&& after.streams.dom().contains(stream_id)
    &&& after.streams[stream_id].tcp_stream == c.streams[stream_id].tcp_stream
    &&& after.deliver_window == 1000 - cells.len() % 100
    &&& after.streams[stream_id].deliver_window == 500 - on_stream(cells, stream_id) % 50
    &&& after.backward_cipher == cipher_after_cells(c.backward_cipher, owed(cells, stream_id))
}

/// The circuit's part of one cell more.
proof fn lemma_circuit_part(
    c: CircuitView,
    conn: ConnectionId,
    stream_id: u16,
    before: CircuitView,
    cells: Seq<RelayCellView>,
)
    requires
        cells.len() > 0,
        delivered(c, stream_id, cells.drop_last(), before),
        relay::circuit_window_step(before, conn).1.end == Ending::Continue,
    ensures
        ({
            let (mid, step) = relay::circuit_window_step(before, conn);
            let to = c.streams[stream_id].tcp_stream;
            let had = owed(cells.drop_last(), stream_id);
            let has = had + circuit_due(cells);
            &&& mid.id == c.id
            &&& mid.streams == before.streams
            &&& mid.deliver_window == 1000 - cells.len() % 100
            &&& mid.backward_cipher == cipher_after_cells(c.backward_cipher, has)
            &&& sealed_packets(c.id, c.backward_cipher, had) + packets_sent(step.actions)
                == sealed_packets(c.id, c.backward_cipher, has)
            &&& bytes_written(step.actions, to) == Seq::<u8>::empty()
        }),
{
    let to = c.streams[stream_id].tcp_stream;
    let had = owed(cells.drop_last(), stream_id);
    let has = had + circuit_due(cells);
    let n = cells.len();
    let (mid, step) = relay::circuit_window_step(before, conn);
    let cell = circuit::sendme(0);
    if n % 100 == 0 {
        assert((n - 1) % 100 == 99);
        assert(has =~= had.push(cell));
        lemma_seal_one(c.id, c.backward_cipher, had, cell);
        let send = ActionView::Send {
            conn,
            packet: circuit::sealed_packet(before.id, before.backward_cipher, cell),
        };
        lemma_act(Seq::empty(), send, to);
        assert(step.actions == Seq::<ActionView>::empty().push(send));
        assert(sealed_packets(c.id, c.backward_cipher, had) + packets_sent(step.actions)
            =~= sealed_packets(c.id, c.backward_cipher, has));
    } else {
        assert(n % 100 == (n - 1) % 100 + 1);
        assert(has =~= had);
        assert(step.actions == Seq::<ActionView>::empty());
        assert(sealed_packets(c.id, c.backward_cipher, had) + packets_sent(step.actions)
            =~= sealed_packets(c.id, c.backward_cipher, has));
    }
}

/// The stream's part of one cell more.
proof fn lemma_stream_part(
    c: CircuitView,
    conn: ConnectionId,
    stream_id: u16,
    mid: CircuitView,
    actions: Seq<ActionView>,
    cells: Seq<RelayCellView>,
)
    requires
        cells.len() > 0,
        stream_id != 0,
        forall|k: u16| #[trigger] c.streams.dom().contains(k) <==> k == stream_id,
        mid.id == c.id,
        mid.streams.dom() == c.streams.dom(),
        mid.streams[stream_id].tcp_stream == c.streams[stream_id].tcp_stream,
        mid.streams[stream_id].deliver_window == 500 - on_stream(cells.drop_last(), stream_id)
            % 50,
        mid.deliver_window == 1000 - cells.len() % 100,
        mid.backward_cipher == cipher_after_cells(
            c.backward_cipher,
            owed(cells.drop_last(), stream_id) + circuit_due(cells),
        ),
        bytes_written(actions, c.streams[stream_id].tcp_stream) == Seq::<u8>::empty(),
        relay::stream_window_step(
            mid,
            conn,
            cells.last().stream_id,
            cells.last().data,
            actions,
        ).1.end == Ending::Continue,
    ensures
        ({
            let rc = cells.last();
            let (after, step) = relay::stream_window_step(
                mid,
                conn,
                rc.stream_id,
                rc.data,
                actions,
            );
            let to = c.streams[stream_id].tcp_stream;
            let had = owed(cells.drop_last(), stream_id) + circuit_due(cells);
            &&& delivered(c, stream_id, cells, after)
            &&& forall|first: Seq<Seq<u8>>|
                first + packets_sent(actions) == sealed_packets(c.id, c.backward_cipher, had)
                    ==> #[trigger] (first + packets_sent(step.actions)) == sealed_packets(
                    c.id,
                    c.backward_cipher,
                    owed(cells, stream_id),
                )
            &&& bytes_written(step.actions, to) == if rc.stream_id == stream_id {
                rc.data
            } else {
                Seq::empty()
            }
        }),
{
    let rc = cells.last();
    let to = c.streams[stream_id].tcp_stream;
    let had = owed(cells.drop_last(), stream_id) + circuit_due(cells);
    let (after, step) = relay::stream_window_step(mid, conn, rc.stream_id, rc.data, actions);
    let m = on_stream(cells, stream_id);
    let cell = circuit::sendme(stream_id);
    if rc.stream_id == stream_id {
        let write = ActionView::Write { conn: to, data: rc.data };
        let written = actions.push(write);
        lemma_act(actions, write, to);
        assert(bytes_written(written, to) =~= rc.data);
        assert(after.streams.dom() =~= c.streams.dom());
        if m % 50 == 0 {
            assert((m - 1) % 50 == 49);
            assert(owed(cells, stream_id) =~= had.push(cell));
            lemma_seal_one(c.id, c.backward_cipher, had, cell);
            let send = ActionView::Send {
                conn,
                packet: circuit::sealed_packet(mid.id, mid.backward_cipher, cell),
            };
            lemma_act(written, send, to);
            assert(step.actions == written.push(send));
            assert forall|first: Seq<Seq<u8>>|
                first + packets_sent(actions) == sealed_packets(
                    c.id,
                    c.backward_cipher,
                    had,
                ) implies #[trigger] (first + packets_sent(step.actions)) == sealed_packets(
                c.id,
                c.backward_cipher,
                owed(cells, stream_id),
            ) by {
                assert(first + packets_sent(step.actions) =~= (first + packets_sent(actions)).push(
                    circuit::sealed_packet(mid.id, mid.backward_cipher, cell),
                ));
            }
        } else {
            assert(m % 50 == (m - 1) % 50 + 1);
            assert(owed(cells, stream_id) =~= had);
            assert(step.actions == written);
        }
    } else {
        assert(owed(cells, stream_id) =~= had);
        assert(!mid.streams.dom().contains(rc.stream_id));
    }
}

/// One cell more, from a circuit that is where the cells before left it.
proof fn lemma_deliver_one(
    c: CircuitView,
    conn: ConnectionId,
    stream_id: u16,
    before: CircuitView,
    cells: Seq<RelayCellView>,
)
    requires
        cells.len() > 0,
        stream_id != 0,
        forall|k: u16| #[trigger] c.streams.dom().contains(k) <==> k == stream_id,
        delivered(c, stream_id, cells.drop_last(), before),
        relay::data_step(before, conn, cells.last()).1.end == Ending::Continue,
    ensures
        ({
            let (after, step) = relay::data_step(before, conn, cells.last());
            let to = c.streams[stream_id].tcp_stream;
            let had = owed(cells.drop_last(), stream_id);
            &&& delivered(c, stream_id, cells, after)
            &&& sealed_packets(c.id, c.backward_cipher, had) + packets_sent(step.actions)
                == sealed_packets(c.id, c.backward_cipher, owed(cells, stream_id))
            &&& bytes_written(step.actions, to) == if cells.last().stream_id == stream_id {
                cells.last().data
            } else {
                Seq::empty()
            }
        }),
{
    lemma_circuit_part(c, conn, stream_id, before, cells);
    let (mid, first) = relay::circuit_window_step(before, conn);
    lemma_stream_part(c, conn, stream_id, mid, first.actions, cells);
}

/// What a relay makes of `n` cells of data on a new circuit with one open stream, `m` of them on that
/// stream. The bytes that it writes out are the data of those `m` cells, one behind the other. It
/// sends a `SendMe` for the circuit after every hundredth cell and one for the stream after every
/// fiftieth on it, and nothing else. The windows are short of full by what has come since.
pub proof fn law_data_is_delivered(
    c: CircuitView,
    conn: ConnectionId,
    stream_id: u16,
    cells: Seq<RelayCellView>,
)
    requires
        stream_id != 0,
        forall|k: u16| #[trigger] c.streams.dom().contains(k) <==> k == stream_id,
        c.deliver_window == circuit::CIRCUIT_WINDOW_START,
        c.streams[stream_id].deliver_window == circuit::STREAM_WINDOW_START,
        !delivery(c, conn, cells).failed,
    ensures
        ({
            let d = delivery(c, conn, cells);
            let n = cells.len();
            let m = on_stream(cells, stream_id);
            &&& d.circuit.deliver_window == 1000 - n % 100
            &&& d.circuit.streams[stream_id].deliver_window == 500 - m % 50
            &&& bytes_written(d.actions, c.streams[stream_id].tcp_stream) == stream_data(
                cells,
                stream_id,
            )
            &&& packets_sent(d.actions) == sealed_packets(
                c.id,
                c.backward_cipher,
                owed(cells, stream_id),
            )
            &&& sendmes(owed(cells, stream_id), 0) == n / 100
            &&& sendmes(owed(cells, stream_id), stream_id) == m / 50
            &&& owed(cells, stream_id).len() == n / 100 + m / 50
        }),
{
    lemma_delivery(c, conn, stream_id, cells);
    lemma_owed_counts(cells, stream_id);
}

proof fn lemma_delivery(
    c: CircuitView,
    conn: ConnectionId,
    stream_id: u16,
    cells: Seq<RelayCellView>,
)
    requires
        stream_id != 0,
        forall|k: u16| #[trigger] c.streams.dom().contains(k) <==> k == stream_id,
        c.deliver_window == circuit::CIRCUIT_WINDOW_START,
        c.streams[stream_id].deliver_window == circuit::STREAM_WINDOW_START,
        !delivery(c, conn, cells).failed,
    ensures
        ({
            let d = delivery(c, conn, cells);
            &&& delivered(c, stream_id, cells, d.circuit)
            &&& bytes_written(d.actions, c.streams[stream_id].tcp_stream) == stream_data(
                cells,
                stream_id,
            )
            &&& packets_sent(d.actions) == sealed_packets(
                c.id,
                c.backward_cipher,
                owed(cells, stream_id),
            )
        }),
    decreases cells.len(),
{
    if cells.len() > 0 {
        let rest = cells.drop_last();
        let before = delivery(c, conn, rest);
        let to = c.streams[stream_id].tcp_stream;
        lemma_delivery(c, conn, stream_id, rest);
        lemma_deliver_one(c, conn, stream_id, before.circuit, cells);
        let (after, step) = relay::data_step(before.circuit, conn, cells.last());
        lemma_join(before.actions, step.actions, to);
        assert(bytes_written(before.actions + step.actions, to) =~= stream_data(cells, stream_id));
    }
}

proof fn lemma_count_join(a: Seq<RelayCellView>, b: Seq<RelayCellView>, stream_id: u16)
    ensures
        sendmes(a + b, stream_id) == sendmes(a, stream_id) + sendmes(b, stream_id),
    decreases b.len(),
{
    if b.len() == 0 {
        assert(a + b =~= a);
    } else {
        lemma_count_join(a, b.drop_last(), stream_id);
        assert((a + b).drop_last() =~= a + b.drop_last());
        assert((a + b).last() == b.last());
    }
}

proof fn lemma_owed_counts(cells: Seq<RelayCellView>, stream_id: u16)
    requires
        stream_id != 0,
    ensures
        sendmes(owed(cells, stream_id), 0) == cells.len() / 100,
        sendmes(owed(cells, stream_id), stream_id) == on_stream(cells, stream_id) / 50,
        owed(cells, stream_id).len() == cells.len() / 100 + on_stream(cells, stream_id) / 50,
    decreases cells.len(),
{
    if cells.len() > 0 {
        let rest = cells.drop_last();
        let had = owed(rest, stream_id);
        let a = circuit_due(cells);
        let b = stream_due(cells, stream_id);
        lemma_owed_counts(rest, stream_id);
        lemma_count_join(had, a, 0);
        lemma_count_join(had, a, stream_id);
        lemma_count_join(had + a, b, 0);
        lemma_count_join(had + a, b, stream_id);
        assert(a.len() > 0 ==> a.drop_last() =~= Seq::empty());
        assert(b.len() > 0 ==> b.drop_last() =~= Seq::empty());
        assert(sendmes(Seq::empty(), 0) == 0);
        assert(sendmes(Seq::empty(), stream_id) == 0);
        let n = cells.len();
        let m = on_stream(cells, stream_id);
        assert(n / 100 == (n - 1) / 100 + if n % 100 == 0 {
            1int
        } else {
            0int
        });
        if m > 0 {
            assert(m / 50 == (m - 1) / 50 + if m % 50 == 0 {
                1int
            } else {
                0int
            });
        }
    }
}

/// What a relay may take from the keystream of the way back for so many cells of data.
pub open spec fn sendme_costs(stream_id: u16, cells: nat) -> nat {
    cells * (wire::put_relay_cell(circuit::sendme(0)).len() + wire::put_relay_cell(
        circuit::sendme(stream_id),
    ).len())
}

/// Data is delivered as long as the keystream lasts: if it lasts for two `SendMe` to every cell, a
/// relay never has to stop.
pub proof fn law_deliveries_last(
    c: CircuitView,
    conn: ConnectionId,
    stream_id: u16,
    cells: Seq<RelayCellView>,
)
    requires
        stream_id != 0,
        forall|k: u16| #[trigger] c.streams.dom().contains(k) <==> k == stream_id,
        c.deliver_window == circuit::CIRCUIT_WINDOW_START,
        c.streams[stream_id].deliver_window == circuit::STREAM_WINDOW_START,
        c.backward_cipher matches Some(b) ==> b.has_room(sendme_costs(stream_id, cells.len())),
    ensures
        !delivery(c, conn, cells).failed,
        delivery(c, conn, cells).circuit.backward_cipher is Some == c.backward_cipher is Some,
        c.backward_cipher is Some ==> delivery(c, conn, cells).circuit.backward_cipher.unwrap().used
            <= c.backward_cipher.unwrap().used + sendme_costs(stream_id, cells.len()),
    decreases cells.len(),
{
    if cells.len() > 0 {
        let rest = cells.drop_last();
        let each = wire::put_relay_cell(circuit::sendme(0)).len() + wire::put_relay_cell(
            circuit::sendme(stream_id),
        ).len();
        assert(sendme_costs(stream_id, cells.len()) == sendme_costs(stream_id, rest.len()) + each)
            by (nonlinear_arith)
            requires
                sendme_costs(stream_id, cells.len()) == cells.len() * each,
                sendme_costs(stream_id, rest.len()) == rest.len() * each,
                cells.len() == rest.len() + 1,
        ;
        law_deliveries_last(c, conn, stream_id, rest);
        lemma_delivery(c, conn, stream_id, rest);
        let before = delivery(c, conn, rest);
        lemma_one_lasts(before.circuit, conn, stream_id, cells.last());
    }
}

proof fn lemma_one_lasts(c: CircuitView, conn: ConnectionId, stream_id: u16, rc: RelayCellView)
    requires
        forall|k: u16| #[trigger] c.streams.dom().contains(k) <==> k == stream_id,
        0 < c.deliver_window,
        0 < c.streams[stream_id].deliver_window,
        c.backward_cipher matches Some(b) ==> b.has_room(
            wire::put_relay_cell(circuit::sendme(0)).len() + wire::put_relay_cell(
                circuit::sendme(stream_id),
            ).len(),
        ),
    ensures
        ({
            let (after, step) = relay::data_step(c, conn, rc);
            &&& step.end == Ending::Continue
            &&& after.backward_cipher is Some == c.backward_cipher is Some
            &&& c.backward_cipher is Some ==> after.backward_cipher.unwrap().used
                <= c.backward_cipher.unwrap().used + wire::put_relay_cell(circuit::sendme(0)).len()
                + wire::put_relay_cell(circuit::sendme(stream_id)).len()
        }),
{
    let (mid, first) = relay::circuit_window_step(c, conn);
    assert(first.end == Ending::Continue);
    assert(mid.streams == c.streams);
    assert(c.backward_cipher is Some ==> mid.backward_cipher is Some
        && mid.backward_cipher.unwrap().used <= c.backward_cipher.unwrap().used
        + wire::put_relay_cell(circuit::sendme(0)).len());
    if rc.stream_id != stream_id {
        assert(!mid.streams.dom().contains(rc.stream_id));
    }
}

/// A circuit that a `Create` cell made, with the first stream that `Begin` opened on it, is one to
/// which the law on delivered data applies.
pub proof fn law_new_streams_are_counted_from_the_start(
    m: circuit::ManagerView,
    id: CircuitId,
    conn: ConnectionId,
    key: Seq<u8>,
    stream_id: u16,
    tcp_stream: ConnectionId,
)
    requires
        m.circuits.dom().contains(id),
        m.circuits[id] == relay::created_circuit(id, conn, key),
    ensures
        ({
            let c = relay::begin_dialed_step(
                m,
                id,
                conn,
                stream_id,
                Some(tcp_stream),
            ).0.circuits[id];
            &&& forall|k: u16| #[trigger] c.streams.dom().contains(k) <==> k == stream_id
            &&& c.deliver_window == circuit::CIRCUIT_WINDOW_START
            &&& c.streams[stream_id].deliver_window == circuit::STREAM_WINDOW_START
            &&& c.streams[stream_id].tcp_stream == tcp_stream
        }),
{
}

/// Nothing goes back from an exit through a closed window, and what waits is not lost: the relay is as
/// it was. Otherwise both windows shrink by one.
pub proof fn law_exit_windows_hold_data_back(
    m: circuit::ManagerView,
    id: CircuitId,
    stream_id: u16,
    tcp_stream: ConnectionId,
    data: Seq<u8>,
)
    requires
        circuit::numbered(m),
        relay::has_stream(m, id, stream_id, tcp_stream),
    ensures
        ({
            let c = m.circuits[id];
            let s: Stream = c.streams[stream_id];
            let (after, read) = relay::exit_data_step(m, id, stream_id, tcp_stream, data);
            if c.package_window == 0 || s.package_window == 0 {
                after == m && read is Wait
            } else {
                &&& read is Send
                &&& after.circuits[id].package_window == c.package_window - 1
                &&& after.circuits[id].streams[stream_id].package_window == s.package_window - 1
            }
        }),
{
}

/// What happens on an exit stream: data is read from its connection, or the client acknowledges cells,
/// of the stream or of the whole circuit.
pub ghost enum ExitTurn {
    Read(Seq<u8>),
    Acknowledge(u16),
}

/// How far an exit stream has come.
pub ghost struct ExitFlow {
    pub manager: circuit::ManagerView,
    /// The packets that were sent towards the client.
    pub sent: Seq<Seq<u8>>,
    /// What was taken from the exit connection.
    pub accepted: Seq<u8>,
    /// In how many pieces it was taken.
    pub pieces: nat,
    /// How often the circuit was acknowledged, and the stream.
    pub circuit_acks: nat,
    pub stream_acks: nat,
    /// Whether a keystream or a window could count no further.
    pub failed: bool,
}

pub open spec fn exit_turn(
    f: ExitFlow,
    id: CircuitId,
    conn: ConnectionId,
    stream_id: u16,
    tcp_stream: ConnectionId,
    turn: ExitTurn,
) -> ExitFlow {
    if f.failed {
        f
    } else {
        match turn {
            ExitTurn::Read(data) => match relay::exit_data_step(
                f.manager,
                id,
                stream_id,
                tcp_stream,
                data,
            ) {
                (m, ExitReadView::Send(step)) => if step.end == Ending::Continue {
                    ExitFlow {
                        manager: m,
                        sent: f.sent + packets_sent(step.actions),
                        accepted: f.accepted + data,
                        pieces: f.pieces + 1,
                        ..f
                    }
                } else {
                    ExitFlow { failed: true, ..f }
                },
                _ => f,
            },
            ExitTurn::Acknowledge(k) => {
                let (m, step) = relay::recognized_step(f.manager, id, conn, circuit::sendme(k));
                if step.end == Ending::Continue {
                    ExitFlow {
                        manager: m,
                        sent: f.sent + packets_sent(step.actions),
                        circuit_acks: f.circuit_acks + if k == 0 {
                            1nat
                        } else {
                            0nat
                        },
                        stream_acks: f.stream_acks + if k == stream_id {
                            1nat
                        } else {
                            0nat
                        },
                        ..f
                    }
                } else {
                    ExitFlow { failed: true, ..f }
                }
            },
        }
    }
}

/// An exit stream after these turns.
pub open spec fn exit_after(
    m: circuit::ManagerView,
    id: CircuitId,
    conn: ConnectionId,
    stream_id: u16,
    tcp_stream: ConnectionId,
    turns: Seq<ExitTurn>,
) -> ExitFlow
    decreases turns.len(),
{
    if turns.len() == 0 {
        ExitFlow {
            manager: m,
            sent: Seq::empty(),
            accepted: Seq::empty(),
            pieces: 0,
            circuit_acks: 0,
            stream_acks: 0,
            failed: false,
        }
    } else {
        exit_turn(
            exit_after(m, id, conn, stream_id, tcp_stream, turns.drop_last()),
            id,
            conn,
            stream_id,
            tcp_stream,
            turns.last(),
        )
    }
}

/// Whether these are the cells that an exit stream has sent, and the windows have counted them.
pub open spec fn has_returned(
    m: circuit::ManagerView,
    id: CircuitId,
    stream_id: u16,
    tcp_stream: ConnectionId,
    f: ExitFlow,
    cells: Seq<RelayCellView>,
) -> bool {
    let c = m.circuits[id];
    let d = f.manager.circuits[id];
    &&& relay::has_stream(f.manager, id, stream_id, tcp_stream)
    &&& d.id == id
    &&& d.linked_circuit_id is None
    &&& d.backward_cipher == cipher_after_cells(c.backward_cipher, cells)
    &&& f.sent == sealed_packets(id, c.backward_cipher, cells)
    &&& f.accepted == all_data(cells)
    &&& f.pieces == cells.len()
    &&& forall|i: int|
        0 <= i < cells.len() ==> (#[trigger] cells[i]) == circuit::plain_relay_cell(
            stream_id,
            RelayCommand::Data,
            cells[i].data,
        )
    &&& d.package_window + f.pieces == c.package_window + circuit::CIRCUIT_WINDOW_INCREMENT
        * f.circuit_acks
    &&& d.streams[stream_id].package_window + f.pieces == c.streams[stream_id].package_window
        + circuit::STREAM_WINDOW_INCREMENT * f.stream_acks
}

proof fn lemma_exit_read(
    m: circuit::ManagerView,
    id: CircuitId,
    conn: ConnectionId,
    stream_id: u16,
    tcp_stream: ConnectionId,
    f: ExitFlow,
    cells: Seq<RelayCellView>,
    data: Seq<u8>,
) -> (more: Seq<RelayCellView>)
    requires
        has_returned(m, id, stream_id, tcp_stream, f, cells),
        !f.failed,
        !exit_turn(f, id, conn, stream_id, tcp_stream, ExitTurn::Read(data)).failed,
    ensures
        has_returned(
            m,
            id,
            stream_id,
            tcp_stream,
            exit_turn(f, id, conn, stream_id, tcp_stream, ExitTurn::Read(data)),
            more,
        ),
{
    let after = exit_turn(f, id, conn, stream_id, tcp_stream, ExitTurn::Read(data));
    let d = f.manager.circuits[id];
    if d.package_window == 0 || d.streams[stream_id].package_window == 0 {
        cells
    } else {
        let cell = circuit::plain_relay_cell(stream_id, RelayCommand::Data, data);
        let more = cells.push(cell);
        let step = relay::exit_data_step(f.manager, id, stream_id, tcp_stream, data).1->Send_0;
        let send = ActionView::Send {
            conn: d.prev_hop_stream.unwrap(),
            packet: circuit::sealed_packet(id, d.backward_cipher, cell),
        };
        lemma_act(Seq::empty(), send, tcp_stream);
        assert(step.actions == Seq::<ActionView>::empty().push(send));
        lemma_seal_one(id, m.circuits[id].backward_cipher, cells, cell);
        assert(packets_sent(Seq::<ActionView>::empty()) =~= Seq::empty());
        assert(f.sent + packets_sent(step.actions) =~= f.sent.push(
            circuit::sealed_packet(id, d.backward_cipher, cell),
        ));
        assert(more.drop_last() =~= cells);
        assert forall|i: int| 0 <= i < more.len() implies (#[trigger] more[i])
            == circuit::plain_relay_cell(stream_id, RelayCommand::Data, more[i].data) by {
            if i < cells.len() {
                assert(more[i] == cells[i]);
            }
        }
        more
    }
}

proof fn lemma_exit_acknowledged(
    m: circuit::ManagerView,
    id: CircuitId,
    conn: ConnectionId,
    stream_id: u16,
    tcp_stream: ConnectionId,
    f: ExitFlow,
    cells: Seq<RelayCellView>,
    k: u16,
)
    requires
        stream_id != 0,
        has_returned(m, id, stream_id, tcp_stream, f, cells),
        !f.failed,
        !exit_turn(f, id, conn, stream_id, tcp_stream, ExitTurn::Acknowledge(k)).failed,
    ensures
        has_returned(
            m,
            id,
            stream_id,
            tcp_stream,
            exit_turn(f, id, conn, stream_id, tcp_stream, ExitTurn::Acknowledge(k)),
            cells,
        ),
{
    let d = f.manager.circuits[id];
    let (after, step) = relay::sendme_step(d, k);
    assert(relay::recognized_step(f.manager, id, conn, circuit::sendme(k)) == (
        f.manager.with_circuit(after),
        step,
    ));
    assert(step.actions == Seq::<ActionView>::empty());
    assert(packets_sent(step.actions) =~= Seq::empty());
    assert(f.sent + packets_sent(step.actions) =~= f.sent);
}

/// What is taken from an exit connection goes back, whole and in order, as the data of `Data` cells of
/// its stream, and nothing else goes back. What the client has not yet acknowledged is what the windows
/// have shrunk by, so no more is under way than they allow.
pub proof fn law_exit_data_is_complete(
    m: circuit::ManagerView,
    id: CircuitId,
    conn: ConnectionId,
    stream_id: u16,
    tcp_stream: ConnectionId,
    turns: Seq<ExitTurn>,
)
    requires
        stream_id != 0,
        relay::has_stream(m, id, stream_id, tcp_stream),
        m.circuits[id].id == id,
        m.circuits[id].linked_circuit_id is None,
        !exit_after(m, id, conn, stream_id, tcp_stream, turns).failed,
    ensures
        exists|cells: Seq<RelayCellView>|
            has_returned(
                m,
                id,
                stream_id,
                tcp_stream,
                exit_after(m, id, conn, stream_id, tcp_stream, turns),
                cells,
            ),
    decreases turns.len(),
{
    let after = exit_after(m, id, conn, stream_id, tcp_stream, turns);
    if turns.len() == 0 {
        assert(has_returned(m, id, stream_id, tcp_stream, after, Seq::empty()));
    } else {
        let before = exit_after(m, id, conn, stream_id, tcp_stream, turns.drop_last());
        law_exit_data_is_complete(m, id, conn, stream_id, tcp_stream, turns.drop_last());
        let cells = choose|cells: Seq<RelayCellView>|
            has_returned(m, id, stream_id, tcp_stream, before, cells);
        match turns.last() {
            ExitTurn::Read(data) => {
                let more = lemma_exit_read(
                    m,
                    id,
                    conn,
                    stream_id,
                    tcp_stream,
                    before,
                    cells,
                    data,
                );
                assert(has_returned(m, id, stream_id, tcp_stream, after, more));
            },
            ExitTurn::Acknowledge(k) => {
                lemma_exit_acknowledged(m, id, conn, stream_id, tcp_stream, before, cells, k);
            },
        }
    }
}

/// A hidden service takes the cells that the other end sends in step exactly as a client does, so what
/// holds of a client's flow holds of a service's.
pub proof fn law_services_flow_like_clients(l: LinkView, cell: RelayCellView)
    requires
        cell.data.len() <= u64::MAX,
        wire::put_relay_cell(cell).len() <= u64::MAX,
    ensures
        link::serve_step(l, arriving(l, cell)) == link::download_step(l, arriving(l, cell)),
{
    let plain = wire::put_relay_cell(cell);
    onion::law_onion_round_trip(l.backward, plain);
    wire::law_message_round_trip(
        MessageView::TorCell(link::onion_cell(l.circ_id, l.backward, cell)),
    );
    if onion::have_room(l.backward, plain.len()) {
        onion_laws::law_onion_cells_are_received(l.circ_id, l.backward, cell);
    }
}

} // verus!
