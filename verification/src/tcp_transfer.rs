//! Moving octets between a flow's client and its upstream, flow after flow.
use vstd::prelude::*;

use crate::fair::{at_most, served, FairQueue, FairState, FlowId, Progress, RowState};
use crate::octets::push_range;
use crate::room::{Asked, Sending, Unsent};
use crate::tcp_engine::Handle;
use crate::transfer::{refilled, same_flow, waiting, Chunk, Polling, TransferState};

verus! {

/// What a flow's socket has, and where the flow stands.
#[derive(Debug)]
pub struct Socket {
    /// Whether its handshake is over.
    pub opened: bool,
    /// Whether it is still at its handshake.
    pub handshaking: bool,
    /// Whether its client may still be sent to.
    pub may_send: bool,
    /// How many octets for its client it takes now.
    pub room: usize,
    /// What its client sent.
    pub readable: Vec<u8>,
    /// Whether its handshake was over at one time.
    pub established: bool,
    /// Whether nobody receives what the flow sends any more.
    pub upstream_closed: bool,
    /// Whether its other end is the resolver, which is told when a piece of its answer has gone.
    pub resolver: bool,
}

/// What is to be done for a flow.
#[derive(Debug)]
pub struct Turn {
    pub handle: Handle,
    /// The client is told that nothing more comes.
    pub close: bool,
    /// This is taken off the socket, and sent upstream where it can be.
    pub sent: Option<Sending<Vec<u8>>>,
}

/// What is counted while octets move.
#[derive(Clone, Copy, Debug, PartialEq, Eq, Structural)]
pub struct Moved {
    pub moved: bool,
    pub to_upstream: u64,
    pub stale: u64,
}

/// Whether a flow's client has something to be sent upstream, and there is a place for it.
pub open spec fn takes(flow: Polling, socket: Socket, chunk: nat) -> bool {
    flow.transfer@.reserved() && flow.receiving && at_most(socket.readable@, chunk).len() > 0
}

/// Whether a flow's client is to be told that nothing more comes.
pub open spec fn closes(flow: Polling, socket: Socket) -> bool {
    flow.transfer@.finished && socket.may_send
}

/// Whether `turn` is what is to be done for a flow.
pub open spec fn turn_of(flow: Polling, socket: Socket, turn: Turn, chunk: nat) -> bool {
    &&& turn.handle == flow.id.handle
    &&& turn.close == closes(flow, socket)
    &&& match turn.sent {
        None => !takes(flow, socket, chunk),
        Some(Sending::Pass(bytes)) => takes(flow, socket, chunk) && !socket.upstream_closed && bytes@ == at_most(
            socket.readable@,
            chunk,
        ),
        Some(Sending::Abort(Unsent(Some(bytes)))) => takes(flow, socket, chunk) && socket.upstream_closed && bytes@
            == at_most(socket.readable@, chunk),
        _ => false,
    }
}

/// How many octets the first `n` flows have for upstream.
pub open spec fn octets_taken(flows: Seq<Polling>, sockets: Seq<Socket>, chunk: nat, n: int) -> int
    decreases n,
{
    if n <= 0 {
        0
    } else {
        octets_taken(flows, sockets, chunk, n - 1) + if takes(flows[n - 1], sockets[n - 1], chunk) {
            at_most(sockets[n - 1].readable@, chunk).len() as int
        } else {
            0
        }
    }
}

/// How many of the first `n` flows have something that nobody receives.
pub open spec fn stranded(flows: Seq<Polling>, sockets: Seq<Socket>, chunk: nat, n: int) -> int
    decreases n,
{
    if n <= 0 {
        0
    } else {
        stranded(flows, sockets, chunk, n - 1) + if takes(flows[n - 1], sockets[n - 1], chunk)
            && sockets[n - 1].upstream_closed {
            1int
        } else {
            0
        }
    }
}

/// Whether anything is to be done for a flow.
pub open spec fn active(flow: Polling, socket: Socket, chunk: nat) -> bool {
    closes(flow, socket) || takes(flow, socket, chunk)
}

/// A flow's two ways after its turn.
pub open spec fn after_turn(flow: Polling, socket: Socket, chunk: nat) -> TransferState {
    if takes(flow, socket, chunk) {
        flow.transfer@.having_asked(Asked::Send(socket.upstream_closed))
    } else {
        flow.transfer@
    }
}

/// A flow's socket after its turn.
pub open spec fn after_look(socket: Socket) -> Socket {
    Socket { established: socket.established || socket.opened, ..socket }
}

fn take_turn(flow: &mut Polling, socket: &mut Socket, chunk: usize) -> (r: Turn)
    ensures
        turn_of(*old(flow), *old(socket), r, chunk as nat),
        same_flow(*old(flow), *final(flow)),
        final(flow).transfer@ == after_turn(*old(flow), *old(socket), chunk as nat),
        *final(socket) == after_look(*old(socket)),
{
    let room = flow.transfer.reserved();
    let finished = flow.transfer.finished();
    if socket.opened {
        socket.established = true;
    }
    let close = finished && socket.may_send;
    let mut sent: Option<Sending<Vec<u8>>> = None;
    if room && flow.receiving {
        let count: usize = if socket.readable.len() < chunk {
            socket.readable.len()
        } else {
            chunk
        };
        let mut bytes: Vec<u8> = Vec::new();
        push_range(&mut bytes, socket.readable.as_slice(), 0, count);
        assert(bytes@ =~= at_most(old(socket).readable@, chunk as nat));
        if bytes.len() > 0 {
            sent = Some(flow.transfer.send(bytes, socket.upstream_closed));
        }
    }
    Turn { handle: flow.id.handle, close, sent }
}

/// Moves what the clients sent upstream, each flow in its turn: where there is a place for it, as much as is taken
/// at once. A flow whose upstream has finished tells its client so.
pub fn pump_to_upstream(
    flows: &mut Vec<Polling>,
    sockets: &mut Vec<Socket>,
    chunk: usize,
) -> (r: (Vec<Turn>, Moved))
    requires
        old(sockets)@.len() == old(flows)@.len(),
        octets_taken(old(flows)@, old(sockets)@, chunk as nat, old(flows)@.len() as int) <= u64::MAX,
    ensures
        final(flows)@.len() == old(flows)@.len(),
        final(sockets)@.len() == old(flows)@.len(),
        r.0@.len() == old(flows)@.len(),
        forall|i: int|
            0 <= i < old(flows)@.len() ==> turn_of(
                old(flows)@[i],
                old(sockets)@[i],
                #[trigger] r.0@[i],
                chunk as nat,
            ),
        forall|i: int|
            0 <= i < old(flows)@.len() ==> {
                let after = #[trigger] final(flows)@[i];
                &&& same_flow(old(flows)@[i], after)
                &&& after.transfer@ == after_turn(old(flows)@[i], old(sockets)@[i], chunk as nat)
            },
        forall|i: int|
            0 <= i < old(flows)@.len() ==> #[trigger] final(sockets)@[i] == after_look(old(sockets)@[i]),
        r.1.moved == exists|i: int|
            0 <= i < old(flows)@.len() && active(#[trigger] old(flows)@[i], old(sockets)@[i], chunk as nat),
        r.1.to_upstream == octets_taken(old(flows)@, old(sockets)@, chunk as nat, old(flows)@.len() as int),
        r.1.stale == stranded(old(flows)@, old(sockets)@, chunk as nat, old(flows)@.len() as int),
{
    let ghost before = flows@;
    let ghost known = sockets@;
    let mut turns: Vec<Turn> = Vec::new();
    let mut moved = Moved { moved: false, to_upstream: 0, stale: 0 };
    let mut i: usize = 0;
    while i < flows.len()
        invariant
            i <= before.len(),
            flows@.len() == before.len(),
            sockets@.len() == before.len(),
            known.len() == before.len(),
            turns@.len() == i,
            octets_taken(before, known, chunk as nat, before.len() as int) <= u64::MAX,
            forall|j: int| 0 <= j < i ==> turn_of(before[j], known[j], #[trigger] turns@[j], chunk as nat),
            forall|j: int|
                0 <= j < i ==> {
                    let after = #[trigger] flows@[j];
                    &&& same_flow(before[j], after)
                    &&& after.transfer@ == after_turn(before[j], known[j], chunk as nat)
                },
            forall|j: int| 0 <= j < i ==> #[trigger] sockets@[j] == after_look(known[j]),
            forall|j: int| i <= j < before.len() ==> #[trigger] flows@[j] == before[j],
            forall|j: int| i <= j < before.len() ==> #[trigger] sockets@[j] == known[j],
            moved.moved == exists|j: int| 0 <= j < i && active(#[trigger] before[j], known[j], chunk as nat),
            moved.to_upstream == octets_taken(before, known, chunk as nat, i as int),
            moved.stale == stranded(before, known, chunk as nat, i as int),
            moved.stale <= i,
        decreases before.len() - i,
    {
        let ghost was = moved.moved;
        assert(flows@[i as int] == before[i as int]);
        assert(sockets@[i as int] == known[i as int]);
        let turn = take_turn(&mut flows[i], &mut sockets[i], chunk);
        proof {
            lemma_octets_grow(before, known, chunk as nat, i as int + 1, before.len() as int);
        }
        if turn.close {
            moved.moved = true;
        }
        match &turn.sent {
            Some(Sending::Pass(bytes)) => {
                moved.moved = true;
                moved.to_upstream += bytes.len() as u64;
            },
            Some(Sending::Abort(Unsent(Some(bytes)))) => {
                moved.moved = true;
                moved.to_upstream += bytes.len() as u64;
                moved.stale += 1;
            },
            _ => {},
        }
        proof {
            assert(moved.moved == (was || active(before[i as int], known[i as int], chunk as nat)));
            if was {
                let j = choose|j: int| 0 <= j < i && active(#[trigger] before[j], known[j], chunk as nat);
                assert(active(before[j], known[j], chunk as nat));
            }
            assert(moved.moved == exists|j: int|
                0 <= j < i + 1 && active(#[trigger] before[j], known[j], chunk as nat));
        }
        turns.push(turn);
        i += 1;
    }
    (turns, moved)
}

proof fn lemma_octets_grow(flows: Seq<Polling>, sockets: Seq<Socket>, chunk: nat, a: int, b: int)
    requires
        a <= b,
    ensures
        octets_taken(flows, sockets, chunk, a) <= octets_taken(flows, sockets, chunk, b),
    decreases b - a,
{
    if a < b {
        lemma_octets_grow(flows, sockets, chunk, a, b - 1);
    }
}

/// Whether nothing more will be sent upstream for a flow: it was established, and its client has said that nothing
/// more comes.
pub open spec fn stops(flow: Polling, socket: Socket, may_recv: bool) -> bool {
    socket.established && flow.transfer@.upstream is Some && !may_recv
}

/// Ends the sending of the flows whose clients have finished, once their turns are over. `may_recv` says of each
/// flow whether its client may still send. Says whether any did end.
pub fn stop_finished(flows: &mut Vec<Polling>, sockets: &Vec<Socket>, may_recv: &Vec<bool>) -> (r: bool)
    requires
        sockets@.len() == old(flows)@.len(),
        may_recv@.len() == old(flows)@.len(),
    ensures
        final(flows)@.len() == old(flows)@.len(),
        forall|i: int|
            0 <= i < old(flows)@.len() ==> {
                let before = old(flows)@[i];
                let after = #[trigger] final(flows)@[i];
                &&& same_flow(before, after)
                &&& after.transfer@ == if stops(before, sockets@[i], may_recv@[i]) {
                    TransferState { upstream: None, ..before.transfer@ }
                } else {
                    before.transfer@
                }
            },
        r == exists|i: int|
            0 <= i < old(flows)@.len() && stops(#[trigger] old(flows)@[i], sockets@[i], may_recv@[i]),
{
    let ghost before = flows@;
    let mut stopped = false;
    let mut i: usize = 0;
    while i < flows.len()
        invariant
            i <= before.len(),
            flows@.len() == before.len(),
            sockets@.len() == before.len(),
            may_recv@.len() == before.len(),
            forall|j: int|
                0 <= j < i ==> {
                    let after = #[trigger] flows@[j];
                    &&& same_flow(before[j], after)
                    &&& after.transfer@ == if stops(before[j], sockets@[j], may_recv@[j]) {
                        TransferState { upstream: None, ..before[j].transfer@ }
                    } else {
                        before[j].transfer@
                    }
                },
            forall|j: int| i <= j < before.len() ==> #[trigger] flows@[j] == before[j],
            stopped == exists|j: int| 0 <= j < i && stops(#[trigger] before[j], sockets@[j], may_recv@[j]),
        decreases before.len() - i,
    {
        let ghost was = stopped;
        assert(flows@[i as int] == before[i as int]);
        if sockets[i].established && flows[i].transfer.sending() && !may_recv[i] {
            flows[i].transfer.stop_sending();
            stopped = true;
        }
        proof {
            if was {
                let j = choose|j: int| 0 <= j < i && stops(#[trigger] before[j], sockets@[j], may_recv@[j]);
                assert(stops(before[j], sockets@[j], may_recv@[j]));
            }
            assert(stopped == exists|j: int| 0 <= j < i + 1 && stops(#[trigger] before[j], sockets@[j], may_recv@[j]));
        }
        i += 1;
    }
    stopped
}

/// What is offered to a client's socket in a flow's turn.
#[derive(Debug, PartialEq, Eq)]
pub enum Offer {
    /// Nothing yet: the handshake is not over. The flow keeps its place in the order.
    Waiting,
    /// Nothing: no octets are owed. `ended` says whether the end of the stream is what was.
    Nothing { ended: bool },
    /// Nothing: there is no such flow any more.
    Gone,
    /// Nothing: the socket takes no more.
    Refused,
    /// These octets, of which the socket takes the first `sent`.
    Octets { offered: Vec<u8>, sent: usize },
}

/// What is offered to a client's socket, octet by octet.
#[verifier::ext_equal]
pub enum OfferState {
    Waiting,
    Nothing { ended: bool },
    Gone,
    Refused,
    Octets { offered: Seq<u8>, sent: nat },
}

impl View for Offer {
    type V = OfferState;

    open spec fn view(&self) -> OfferState {
        match *self {
            Offer::Waiting => OfferState::Waiting,
            Offer::Nothing { ended } => OfferState::Nothing { ended },
            Offer::Gone => OfferState::Gone,
            Offer::Refused => OfferState::Refused,
            Offer::Octets { offered, sent } => OfferState::Octets { offered: offered@, sent: sent as nat },
        }
    }
}

/// A flow's turn towards its client.
#[derive(Debug, PartialEq, Eq)]
pub struct ClientTurn {
    pub id: FlowId,
    pub offer: Offer,
    /// Whether the resolver is told that a piece of its answer has gone.
    pub acknowledge: bool,
}

/// What is counted while octets go to the clients.
#[derive(Clone, Copy, Debug, PartialEq, Eq, Structural)]
pub struct Offered {
    pub moved: bool,
    pub to_client: u64,
    pub stale: u64,
}

/// One flow on its way to its client: its row, what waits behind it where the flow is still there, and whether it is
/// in the order.
#[verifier::ext_equal]
pub struct Lane {
    pub row: Option<RowState>,
    pub transfer: Option<TransferState>,
    pub ready: bool,
}

/// A lane after the first chunk that waits was moved into its row, where it takes one.
pub open spec fn lane_refilled(l: Lane) -> Lane {
    if l.row is Some && l.row->0.accepts() && l.transfer is Some && l.transfer->0.chunks.len() > 0 {
        Lane {
            row: Some(
                match l.transfer->0.chunks[0] {
                    Chunk::Payload(bytes) => l.row->0.holding(bytes@),
                    Chunk::Finished => l.row->0.ending(),
                },
            ),
            transfer: Some(l.transfer->0.having_taken()),
            ready: true,
        }
    } else {
        l
    }
}

/// A lane after so many more octets of its row have gone. One that is still owed some is back in the order.
pub open spec fn lane_served(l: Lane, sent: nat) -> (Lane, Progress) {
    match l.row {
        None => (l, Progress::Idle),
        Some(row) => {
            let (after, progress) = row.served(sent);
            (Lane { row: Some(after), ready: l.ready || progress is Blocked, ..l }, progress)
        },
    }
}

/// What a turn comes to.
#[verifier::ext_equal]
pub struct Turned {
    pub lane: Lane,
    pub offer: OfferState,
    pub acknowledge: bool,
    pub moved: bool,
}

/// The turn of a flow that has just lost its place in the order. What its row has left is offered to its client's
/// socket, at most `chunk` octets of it, and what the socket does not take stays owed. A row that is empty is filled
/// before, and one that was emptied is filled after.
pub open spec fn turn_for(l: Lane, socket: Option<Socket>, chunk: nat) -> Turned {
    if socket is Some && socket->0.handshaking {
        Turned {
            lane: Lane { ready: l.row is Some && !l.row->0.retiring, ..l },
            offer: OfferState::Waiting,
            acknowledge: false,
            moved: false,
        }
    } else {
        let filled = lane_refilled(l);
        let told = l.transfer is Some && socket is Some && socket->0.resolver;
        match (if filled.row is Some {
            filled.row->0.remaining()
        } else {
            None
        }) {
            None => {
                let (after, progress) = lane_served(filled, 0);
                Turned {
                    lane: after,
                    offer: OfferState::Nothing { ended: progress is Eof },
                    acknowledge: progress is Eof && told,
                    moved: progress is Eof,
                }
            },
            Some(remaining) => if socket is None {
                Turned { lane: filled, offer: OfferState::Gone, acknowledge: false, moved: false }
            } else if !socket->0.may_send {
                Turned { lane: filled, offer: OfferState::Refused, acknowledge: false, moved: true }
            } else {
                let offered = at_most(remaining, chunk);
                let sent = at_most(offered, socket->0.room as nat).len();
                let (after, progress) = lane_served(filled, sent);
                let emptied = progress is Consumed || progress is Eof;
                Turned {
                    lane: if emptied {
                        lane_refilled(after)
                    } else {
                        after
                    },
                    offer: OfferState::Octets { offered, sent },
                    acknowledge: emptied && told,
                    moved: sent > 0 || emptied,
                }
            },
        }
    }
}

/// Which flow has a socket: the first of them.
pub open spec fn flow_at(flows: Seq<Polling>, handle: Handle, i: int) -> Option<int>
    decreases flows.len() - i,
{
    if i < 0 || i >= flows.len() {
        None
    } else if flows[i].id.handle == handle {
        Some(i)
    } else {
        flow_at(flows, handle, i + 1)
    }
}

/// Whether a flow is still that flow.
pub open spec fn is_current(flows: Seq<Polling>, id: FlowId) -> bool {
    flow_at(flows, id.handle, 0) is Some && flows[flow_at(flows, id.handle, 0)->0].id == id
}

/// The lane of a flow that is not in the order.
pub open spec fn lane_of(fair: FairState, flows: Seq<Polling>, id: FlowId) -> Lane {
    Lane {
        row: fair.row(id),
        transfer: if is_current(flows, id) {
            Some(flows[flow_at(flows, id.handle, 0)->0].transfer@)
        } else {
            None
        },
        ready: false,
    }
}

/// What a flow's turn comes to, as the rows, the flows and their sockets stand.
pub open spec fn turned(
    fair: FairState,
    flows: Seq<Polling>,
    sockets: Seq<Socket>,
    chunk: nat,
    id: FlowId,
) -> Turned {
    turn_for(
        lane_of(fair, flows, id),
        match flow_at(flows, id.handle, 0) {
            Some(i) => Some(sockets[i]),
            None => None,
        },
        chunk,
    )
}

fn find(flows: &Vec<Polling>, handle: Handle) -> (r: Option<usize>)
    ensures
        match r {
            Some(i) => i < flows@.len() && flow_at(flows@, handle, 0) == Some(i as int),
            None => flow_at(flows@, handle, 0) is None,
        },
{
    let mut i: usize = 0;
    while i < flows.len()
        invariant
            i <= flows@.len(),
            flow_at(flows@, handle, 0) == flow_at(flows@, handle, i as int),
        decreases flows@.len() - i,
    {
        if flows[i].id.handle.0 == handle.0 {
            return Some(i);
        }
        i += 1;
    }
    None
}

/// The flows after one of them moved a chunk.
spec fn flows_with(before: Seq<Polling>, after: Seq<Polling>, id: FlowId, lane: Lane) -> bool {
    &&& after.len() == before.len()
    &&& forall|j: int|
        0 <= j < before.len() ==> {
            &&& same_flow(before[j], #[trigger] after[j])
            &&& after[j].transfer@ == if is_current(before, id) && flow_at(before, id.handle, 0) == Some(j) {
                lane.transfer->0
            } else {
                before[j].transfer@
            }
        }
}

/// The lane of a flow as it stands.
spec fn lane_now(fair: FairState, flows: Seq<Polling>, id: FlowId) -> Lane {
    Lane { ready: fair.order.contains(id), ..lane_of(fair, flows, id) }
}

/// The rows after what was done for one flow: its row is another, and it may have got a place in the order.
spec fn rows_with(before: FairState, after: FairState, id: FlowId, lane: Lane) -> bool {
    &&& after.row(id) == lane.row
    &&& forall|other: FlowId| other != id ==> #[trigger] after.row(other) == before.row(other)
    &&& after.prepared == before.prepared
    &&& after.order == if lane.ready && !before.order.contains(id) {
        before.order.push(id)
    } else {
        before.order
    }
}

/// Moves a chunk into a flow's row, where the flow is still that flow.
fn refill_current(flows: &mut Vec<Polling>, fair: &mut FairQueue, id: FlowId, at: Option<usize>)
    requires
        old(fair).wf(),
        match at {
            Some(i) => i < old(flows)@.len() && flow_at(old(flows)@, id.handle, 0) == Some(i as int),
            None => flow_at(old(flows)@, id.handle, 0) is None,
        },
    ensures
        final(fair).wf(),
        ({
            let lane = lane_refilled(lane_now(old(fair)@, old(flows)@, id));
            &&& rows_with(old(fair)@, final(fair)@, id, lane)
            &&& flows_with(old(flows)@, final(flows)@, id, lane)
            &&& lane_now(final(fair)@, final(flows)@, id) == lane
        }),
{
    let ghost before = flows@;
    let ghost rows = fair@;
    if let Some(i) = at {
        proof {
            lemma_flow_at(flows@, id.handle, 0);
        }
        if flows[i].id.worker == id.worker {
            assert(flows@[i as int].id == id);
            let _ = flows[i].transfer.refill(id, fair);
            assert((fair@, flows@[i as int].transfer@) == refilled(rows, id, before[i as int].transfer@));
        }
    }
    proof {
        lemma_same_flow_at(before, flows@, id.handle, 0);
        if fair@.order != rows.order {
            assert(fair@.order == rows.order.push(id));
            assert(fair@.order[rows.order.len() as int] == id);
        }
    }
}

proof fn lemma_flow_at(flows: Seq<Polling>, handle: Handle, i: int)
    requires
        0 <= i,
    ensures
        match flow_at(flows, handle, i) {
            Some(j) => i <= j < flows.len() && flows[j].id.handle == handle,
            None => true,
        },
    decreases flows.len() - i,
{
    if i < flows.len() && flows[i].id.handle != handle {
        lemma_flow_at(flows, handle, i + 1);
    }
}

proof fn lemma_same_flow_at(before: Seq<Polling>, after: Seq<Polling>, handle: Handle, i: int)
    requires
        after.len() == before.len(),
        forall|j: int| 0 <= j < before.len() ==> same_flow(before[j], #[trigger] after[j]),
        0 <= i,
    ensures
        flow_at(after, handle, i) == flow_at(before, handle, i),
    decreases before.len() - i,
{
    if i < before.len() {
        assert(same_flow(before[i], after[i]));
        lemma_same_flow_at(before, after, handle, i + 1);
    }
}

proof fn lemma_served(s: FairState, flows: Seq<Polling>, id: FlowId, sent: nat)
    ensures
        ({
            let lane = lane_served(lane_now(s, flows, id), sent).0;
            &&& rows_with(s, served(s, id, sent), id, lane)
            &&& lane_now(served(s, id, sent), flows, id) == lane
        }),
{
    let after = served(s, id, sent);
    let lane = lane_served(lane_now(s, flows, id), sent).0;
    let now = lane_now(s, flows, id);
    assert(now.ready == s.order.contains(id) && now.row == s.row(id));
    if s.rows.contains_key(id) && s.rows[id].served(sent).1 is Blocked {
        if !s.order.contains(id) {
            assert(after.order == s.order.push(id));
            assert(after.order[s.order.len() as int] == id);
        }
        assert(after.order.contains(id));
    } else {
        assert(after.order == s.order);
        assert(lane.ready == now.ready);
    }
}

proof fn lemma_rows_with(a: FairState, b: FairState, c: FairState, id: FlowId, first: Lane, second: Lane)
    requires
        rows_with(a, b, id, first),
        rows_with(b, c, id, second),
        first.ready == b.order.contains(id),
        first.ready ==> second.ready,
    ensures
        rows_with(a, c, id, second),
{
    if a.order.contains(id) {
        assert(b.order == a.order);
    }
    assert forall|other: FlowId| other != id implies #[trigger] c.row(other) == a.row(other) by {
        assert(b.row(other) == a.row(other));
    }
}

proof fn lemma_flows_with(a: Seq<Polling>, b: Seq<Polling>, c: Seq<Polling>, id: FlowId, first: Lane, second: Lane)
    requires
        flows_with(a, b, id, first),
        flows_with(b, c, id, second),
    ensures
        flows_with(a, c, id, second),
{
    lemma_same_flow_at(a, b, id.handle, 0);
    lemma_flow_at(a, id.handle, 0);
    assert(is_current(b, id) == is_current(a, id)) by {
        if flow_at(a, id.handle, 0) is Some {
            assert(same_flow(a[flow_at(a, id.handle, 0)->0], b[flow_at(a, id.handle, 0)->0]));
        }
    }
    assert forall|j: int| 0 <= j < a.len() implies {
        &&& same_flow(a[j], #[trigger] c[j])
        &&& c[j].transfer@ == if is_current(a, id) && flow_at(a, id.handle, 0) == Some(j) {
            second.transfer->0
        } else {
            a[j].transfer@
        }
    } by {
        assert(same_flow(a[j], b[j]));
    }
}

/// Takes a flow's turn. The flow has just lost its place in the order.
fn client_turn(
    flows: &mut Vec<Polling>,
    sockets: &Vec<Socket>,
    fair: &mut FairQueue,
    id: FlowId,
    chunk: usize,
) -> (r: (ClientTurn, bool))
    requires
        sockets@.len() == old(flows)@.len(),
        old(fair).wf(),
        !old(fair)@.order.contains(id),
    ensures
        final(fair).wf(),
        ({
            let t = turned(old(fair)@, old(flows)@, sockets@, chunk as nat, id);
            &&& r.0.id == id
            &&& r.0.offer@ == t.offer
            &&& r.0.acknowledge == t.acknowledge
            &&& r.1 == t.moved
            &&& rows_with(old(fair)@, final(fair)@, id, t.lane)
            &&& flows_with(old(flows)@, final(flows)@, id, t.lane)
        }),
{
    let ghost rows = fair@;
    let ghost before = flows@;
    let ghost lane = lane_of(rows, before, id);
    assert(lane_now(rows, before, id) == lane);
    let at = find(flows, id.handle);
    proof {
        lemma_flow_at(before, id.handle, 0);
    }
    let (there, handshaking, may_send, room, resolver) = match at {
        Some(i) => (true, sockets[i].handshaking, sockets[i].may_send, sockets[i].room, sockets[i].resolver
            && flows[i].id.worker == id.worker),
        None => (false, false, false, 0, false),
    };
    if handshaking {
        fair.mark_ready(id);
        return (ClientTurn { id, offer: Offer::Waiting, acknowledge: false }, false);
    }
    refill_current(flows, fair, id, at);
    let ghost filled = lane_refilled(lane);
    let ghost rows1 = fair@;
    let ghost flows1 = flows@;
    assert(lane_now(rows1, flows1, id) == filled);
    let offered = match fair.peek_at_most(id, chunk) {
        None => {
            let ended = match fair.serviced(id, 0) {
                Progress::Eof => true,
                _ => false,
            };
            proof {
                let after = lane_served(filled, 0).0;
                lemma_served(rows1, flows1, id, 0);
                lemma_rows_with(rows, rows1, fair@, id, filled, after);
            }
            return (ClientTurn { id, offer: Offer::Nothing { ended }, acknowledge: ended && resolver }, ended);
        },
        Some(offered) => offered,
    };
    if !there {
        return (ClientTurn { id, offer: Offer::Gone, acknowledge: false }, false);
    }
    if !may_send {
        return (ClientTurn { id, offer: Offer::Refused, acknowledge: false }, true);
    }
    let sent: usize = if room < offered.len() {
        room
    } else {
        offered.len()
    };
    let progress = fair.serviced(id, sent);
    let ghost rows2 = fair@;
    let emptied = match progress {
        Progress::Consumed => true,
        Progress::Eof => true,
        _ => false,
    };
    let ghost after = lane_served(filled, sent as nat).0;
    proof {
        lemma_served(rows1, flows1, id, sent as nat);
        lemma_rows_with(rows, rows1, rows2, id, filled, after);
    }
    if emptied {
        proof {
            lemma_same_flow_at(before, flows1, id.handle, 0);
        }
        refill_current(flows, fair, id, at);
        proof {
            lemma_rows_with(rows, rows2, fair@, id, after, lane_refilled(after));
            lemma_flows_with(before, flows1, flows@, id, filled, lane_refilled(after));
        }
    }
    (
        ClientTurn { id, offer: Offer::Octets { offered, sent }, acknowledge: emptied && resolver },
        sent > 0 || emptied,
    )
}

/// How many octets the first `n` flows of the order are sent in a round.
pub open spec fn octets_sent(
    fair: FairState,
    flows: Seq<Polling>,
    sockets: Seq<Socket>,
    chunk: nat,
    n: int,
) -> int
    decreases n,
{
    if n <= 0 {
        0
    } else {
        octets_sent(fair, flows, sockets, chunk, n - 1) + match turned(
            fair,
            flows,
            sockets,
            chunk,
            fair.order[n - 1],
        ).offer {
            OfferState::Octets { sent, .. } => sent as int,
            _ => 0,
        }
    }
}

/// How many of the first `n` flows of the order are owed something and are there no more.
pub open spec fn gone(fair: FairState, flows: Seq<Polling>, sockets: Seq<Socket>, chunk: nat, n: int) -> int
    decreases n,
{
    if n <= 0 {
        0
    } else {
        gone(fair, flows, sockets, chunk, n - 1) + if turned(
            fair,
            flows,
            sockets,
            chunk,
            fair.order[n - 1],
        ).offer is Gone {
            1int
        } else {
            0
        }
    }
}

/// Which of the first `n` flows of the order have a place in it again after their turns, in the same order.
pub open spec fn kept(
    fair: FairState,
    flows: Seq<Polling>,
    sockets: Seq<Socket>,
    chunk: nat,
    n: int,
) -> Seq<FlowId>
    decreases n,
{
    if n <= 0 {
        Seq::empty()
    } else {
        let before = kept(fair, flows, sockets, chunk, n - 1);
        let id = fair.order[n - 1];
        if turned(fair, flows, sockets, chunk, id).lane.ready {
            before.push(id)
        } else {
            before
        }
    }
}

/// The row of a flow after the turns of those in `order`.
pub open spec fn row_after(
    fair: FairState,
    flows: Seq<Polling>,
    sockets: Seq<Socket>,
    chunk: nat,
    order: Seq<FlowId>,
    id: FlowId,
) -> Option<RowState> {
    if order.contains(id) {
        turned(fair, flows, sockets, chunk, id).lane.row
    } else {
        fair.row(id)
    }
}

/// The two ways of the `j`th flow after the turns of those in `order`.
pub open spec fn transfer_after(
    fair: FairState,
    flows: Seq<Polling>,
    sockets: Seq<Socket>,
    chunk: nat,
    order: Seq<FlowId>,
    j: int,
) -> TransferState {
    if order.contains(flows[j].id) && flow_at(flows, flows[j].id.handle, 0) == Some(j) {
        turned(fair, flows, sockets, chunk, flows[j].id).lane.transfer->0
    } else {
        flows[j].transfer@
    }
}

/// One fair round towards the clients: every flow in the order gets one turn, one after the other, and those that are
/// owed more are in the order again after all that were in it before. In its turn a flow's client is offered what its
/// row has left, at most `chunk` octets. What its socket does not take stays in the row, from just that octet on.
pub fn pump_to_client(
    flows: &mut Vec<Polling>,
    sockets: &Vec<Socket>,
    fair: &mut FairQueue,
    chunk: usize,
) -> (r: (Vec<ClientTurn>, Offered))
    requires
        sockets@.len() == old(flows)@.len(),
        old(fair).wf(),
        octets_sent(old(fair)@, old(flows)@, sockets@, chunk as nat, old(fair)@.order.len() as int) <= u64::MAX,
    ensures
        final(fair).wf(),
        r.0@.len() == old(fair)@.order.len(),
        forall|k: int|
            0 <= k < old(fair)@.order.len() ==> {
                let turn = #[trigger] r.0@[k];
                let t = turned(old(fair)@, old(flows)@, sockets@, chunk as nat, old(fair)@.order[k]);
                &&& turn.id == old(fair)@.order[k]
                &&& turn.offer@ == t.offer
                &&& turn.acknowledge == t.acknowledge
            },
        forall|id: FlowId|
            #[trigger] final(fair)@.row(id) == row_after(
                old(fair)@,
                old(flows)@,
                sockets@,
                chunk as nat,
                old(fair)@.order,
                id,
            ),
        final(fair)@.order == kept(
            old(fair)@,
            old(flows)@,
            sockets@,
            chunk as nat,
            old(fair)@.order.len() as int,
        ),
        final(fair)@.prepared == old(fair)@.prepared,
        final(flows)@.len() == old(flows)@.len(),
        forall|j: int|
            0 <= j < old(flows)@.len() ==> {
                &&& same_flow(old(flows)@[j], #[trigger] final(flows)@[j])
                &&& final(flows)@[j].transfer@ == transfer_after(
                    old(fair)@,
                    old(flows)@,
                    sockets@,
                    chunk as nat,
                    old(fair)@.order,
                    j,
                )
            },
        r.1.moved == exists|k: int|
            0 <= k < old(fair)@.order.len() && turned(
                old(fair)@,
                old(flows)@,
                sockets@,
                chunk as nat,
                #[trigger] old(fair)@.order[k],
            ).moved,
        r.1.to_client == octets_sent(
            old(fair)@,
            old(flows)@,
            sockets@,
            chunk as nat,
            old(fair)@.order.len() as int,
        ),
        r.1.stale == gone(old(fair)@, old(flows)@, sockets@, chunk as nat, old(fair)@.order.len() as int),
{
    let ghost rows = fair@;
    let ghost before = flows@;
    let ghost n = rows.order.len() as int;
    let mut turns: Vec<ClientTurn> = Vec::new();
    let mut counted = Offered { moved: false, to_client: 0, stale: 0 };
    let mut round = fair.begin_round();
    let mut i: usize = 0;
    proof {
        fair.lemma_wf();
        assert(rows.order.skip(0) + kept(rows, before, sockets@, chunk as nat, 0) =~= rows.order);
        assert forall|id: FlowId| #[trigger] fair@.row(id) == row_after(
            rows,
            before,
            sockets@,
            chunk as nat,
            rows.order.take(0),
            id,
        ) by {}
    }
    loop
        invariant
            i <= n <= usize::MAX,
            n == rows.order.len(),
            i + round.spec_left() == n,
            sockets@.len() == before.len(),
            rows.order.no_duplicates(),
            fair.wf(),
            fair@.prepared == rows.prepared,
            fair@.order == rows.order.skip(i as int) + kept(rows, before, sockets@, chunk as nat, i as int),
            forall|id: FlowId|
                #[trigger] fair@.row(id) == row_after(
                    rows,
                    before,
                    sockets@,
                    chunk as nat,
                    rows.order.take(i as int),
                    id,
                ),
            flows@.len() == before.len(),
            forall|j: int|
                0 <= j < before.len() ==> {
                    &&& same_flow(before[j], #[trigger] flows@[j])
                    &&& flows@[j].transfer@ == transfer_after(
                        rows,
                        before,
                        sockets@,
                        chunk as nat,
                        rows.order.take(i as int),
                        j,
                    )
                },
            turns@.len() == i,
            forall|k: int|
                0 <= k < i ==> {
                    let turn = #[trigger] turns@[k];
                    let t = turned(rows, before, sockets@, chunk as nat, rows.order[k]);
                    &&& turn.id == rows.order[k]
                    &&& turn.offer@ == t.offer
                    &&& turn.acknowledge == t.acknowledge
                },
            octets_sent(rows, before, sockets@, chunk as nat, n) <= u64::MAX,
            counted.moved == exists|k: int|
                0 <= k < i && turned(rows, before, sockets@, chunk as nat, #[trigger] rows.order[k]).moved,
            counted.to_client == octets_sent(rows, before, sockets@, chunk as nat, i as int),
            counted.stale == gone(rows, before, sockets@, chunk as nat, i as int),
            counted.stale <= i,
        ensures
            i == n,
        decreases round.spec_left(),
    {
        let ghost rows0 = fair@;
        let ghost flows0 = flows@;
        let ghost taken = rows.order.take(i as int);
        proof {
            if i < n {
                assert(rows0.order[0] == rows.order[i as int]);
            }
        }
        let id = match fair.next(&mut round) {
            Some(id) => id,
            None => {
                break;
            },
        };
        let ghost rows1 = fair@;
        proof {
            assert(id == rows.order[i as int]);
            assert(rows1.order =~= rows.order.skip(i + 1) + kept(rows, before, sockets@, chunk as nat, i as int));
            lemma_kept(rows, before, sockets@, chunk as nat, i as int);
            assert(!rows1.order.contains(id)) by {
                if rows1.order.contains(id) {
                    let k = rows1.order.index_of(id);
                    if k < n - (i + 1) {
                        assert(rows.order[k + i + 1] == id);
                    } else {
                        let kept = kept(rows, before, sockets@, chunk as nat, i as int);
                        assert(kept[k - (n - (i + 1))] == id);
                        assert(kept.contains(id));
                        assert(taken.contains(id));
                        assert(rows.order[taken.index_of(id)] == id);
                    }
                }
            }
            assert(!taken.contains(id)) by {
                if taken.contains(id) {
                    assert(rows.order[taken.index_of(id)] == id);
                }
            }
            assert(rows1.row(id) == rows0.row(id));
            assert(rows1.row(id) == rows.row(id));
            lemma_same_flow_at(before, flows0, id.handle, 0);
            lemma_flow_at(before, id.handle, 0);
            if flow_at(before, id.handle, 0) is Some {
                let j = flow_at(before, id.handle, 0)->0;
                assert(same_flow(before[j], flows0[j]));
            }
            assert(lane_of(rows1, flows0, id) == lane_of(rows, before, id));
        }
        let (turn, moved) = client_turn(flows, sockets, fair, id, chunk);
        let ghost t = turned(rows, before, sockets@, chunk as nat, id);
        proof {
            assert(turned(rows1, flows0, sockets@, chunk as nat, id) == t);
            lemma_sent_grow(rows, before, sockets@, chunk as nat, i as int + 1, n);
        }
        let ghost was = counted.moved;
        if moved {
            counted.moved = true;
        }
        match &turn.offer {
            Offer::Octets { sent, .. } => {
                counted.to_client += *sent as u64;
            },
            Offer::Gone => {
                counted.stale += 1;
            },
            _ => {},
        }
        turns.push(turn);
        proof {
            let then = rows.order.take(i + 1);
            assert(then =~= taken.push(id));
            assert(fair@.order =~= rows.order.skip(i + 1) + kept(
                rows,
                before,
                sockets@,
                chunk as nat,
                i + 1,
            ));
            assert forall|other: FlowId| #[trigger] then.contains(other) == (taken.contains(other) || other == id) by {
                if taken.contains(other) {
                    assert(then[taken.index_of(other)] == other);
                }
                if other == id {
                    assert(then[i as int] == id);
                }
                if then.contains(other) {
                    let k = then.index_of(other);
                    if k < i {
                        assert(taken[k] == other);
                    }
                }
            }
            assert forall|other: FlowId| #[trigger] fair@.row(other) == row_after(
                rows,
                before,
                sockets@,
                chunk as nat,
                then,
                other,
            ) by {
                assert(then.contains(other) == (taken.contains(other) || other == id));
                if other != id {
                    assert(fair@.row(other) == rows1.row(other));
                    assert(rows1.row(other) == rows0.row(other));
                }
            }
            assert forall|j: int| 0 <= j < before.len() implies {
                &&& same_flow(before[j], #[trigger] flows@[j])
                &&& flows@[j].transfer@ == transfer_after(rows, before, sockets@, chunk as nat, then, j)
            } by {
                assert(same_flow(before[j], flows0[j]));
                assert(same_flow(flows0[j], flows@[j]));
                let other = before[j].id;
                assert(then.contains(other) == (taken.contains(other) || other == id));
                lemma_same_flow_at(before, flows0, other.handle, 0);
            }
            if was {
                let k = choose|k: int|
                    0 <= k < i && turned(rows, before, sockets@, chunk as nat, #[trigger] rows.order[k]).moved;
                assert(turned(rows, before, sockets@, chunk as nat, rows.order[k]).moved);
            }
            assert(counted.moved == exists|k: int|
                0 <= k < i + 1 && turned(rows, before, sockets@, chunk as nat, #[trigger] rows.order[k]).moved) by {
                assert(rows.order[i as int] == id);
            }
        }
        i += 1;
    }
    proof {
        assert(rows.order.take(n) =~= rows.order);
        assert(rows.order.skip(n) + kept(rows, before, sockets@, chunk as nat, n) =~= kept(
            rows,
            before,
            sockets@,
            chunk as nat,
            n,
        ));
    }
    (turns, counted)
}

proof fn lemma_kept(fair: FairState, flows: Seq<Polling>, sockets: Seq<Socket>, chunk: nat, n: int)
    requires
        0 <= n <= fair.order.len(),
    ensures
        forall|id: FlowId|
            #[trigger] kept(fair, flows, sockets, chunk, n).contains(id) ==> fair.order.take(n).contains(id),
    decreases n,
{
    if n > 0 {
        lemma_kept(fair, flows, sockets, chunk, n - 1);
        let before = kept(fair, flows, sockets, chunk, n - 1);
        let after = kept(fair, flows, sockets, chunk, n);
        assert forall|id: FlowId| #[trigger] after.contains(id) implies fair.order.take(n).contains(id) by {
            let k = after.index_of(id);
            if k < before.len() {
                assert(before[k] == id);
                assert(before.contains(id));
                let j = fair.order.take(n - 1).index_of(id);
                assert(fair.order.take(n)[j] == id);
            } else {
                assert(fair.order.take(n)[n - 1] == id);
            }
        }
    }
}

proof fn lemma_sent_grow(fair: FairState, flows: Seq<Polling>, sockets: Seq<Socket>, chunk: nat, a: int, b: int)
    requires
        a <= b,
    ensures
        octets_sent(fair, flows, sockets, chunk, a) <= octets_sent(fair, flows, sockets, chunk, b),
    decreases b - a,
{
    if a < b {
        lemma_sent_grow(fair, flows, sockets, chunk, a, b - 1);
    }
}

/// What a lane's client is owed: what of its row has not gone, and then what waits behind it.
pub open spec fn lane_owed(l: Lane) -> Seq<u8> {
    match l.row {
        None => Seq::empty(),
        Some(row) => {
            let held = match row.remaining() {
                Some(bytes) => bytes,
                None => Seq::empty(),
            };
            if row.ended || l.transfer is None {
                held
            } else {
                held + waiting(l.transfer->0.chunks)
            }
        },
    }
}

/// The octets that go to a client in a turn.
pub open spec fn sent_in(offer: OfferState) -> Seq<u8> {
    match offer {
        OfferState::Octets { offered, sent } => at_most(offered, sent),
        _ => Seq::empty(),
    }
}

/// Whether nothing waits behind the end of the stream.
pub open spec fn ends_last(chunks: Seq<Chunk>) -> bool {
    forall|i: int| 0 <= i < chunks.len() - 1 ==> #[trigger] chunks[i] is Payload
}

/// What goes to a client in a turn are the first octets that it is owed, and the rest stays owed: nothing is skipped,
/// nothing is sent twice, and nothing is lost. No more than a chunk goes in one turn.
pub proof fn law_a_turn_sends_the_first_that_is_owed(l: Lane, socket: Option<Socket>, chunk: nat)
    requires
        l.row is Some ==> l.row->0.sound() && !l.row->0.ended,
        l.transfer is Some ==> ends_last(l.transfer->0.chunks),
    ensures
        ({
            let t = turn_for(l, socket, chunk);
            &&& lane_owed(l) == sent_in(t.offer) + lane_owed(t.lane)
            &&& sent_in(t.offer).len() <= chunk
        }),
{
    let t = turn_for(l, socket, chunk);
    let filled = lane_refilled(l);
    lemma_lane_refilled(l);
    if t.offer is Octets {
        let remaining = filled.row->0.remaining()->0;
        let sent = sent_in(t.offer).len();
        let (after, progress) = lane_served(filled, sent);
        assert(!filled.row->0.ended);
        assert(lane_owed(filled) =~= sent_in(t.offer) + lane_owed(after));
        if progress is Consumed {
            lemma_lane_refilled(after);
        }
    } else if t.offer is Nothing {
        if filled.row is Some && filled.row->0.ended {
            assert(l.transfer->0.chunks[0] is Finished);
            assert(l.transfer->0.chunks.len() == 1);
            assert(waiting(t.lane.transfer->0.chunks) =~= Seq::<u8>::empty());
        }
        assert(lane_owed(t.lane) =~= lane_owed(filled));
    }
    assert(lane_owed(l) =~= sent_in(t.offer) + lane_owed(t.lane));
}

proof fn lemma_lane_refilled(l: Lane)
    requires
        l.row is Some ==> !l.row->0.ended,
    ensures
        lane_owed(lane_refilled(l)) == lane_owed(l),
{
    let after = lane_refilled(l);
    if after != l {
        match l.transfer->0.chunks[0] {
            Chunk::Payload(bytes) => {
                assert(bytes@.subrange(0, bytes@.len() as int) =~= bytes@);
            },
            Chunk::Finished => {},
        }
        assert(lane_owed(after) =~= lane_owed(l));
    }
}

/// What is to be looked after first.
#[derive(Debug, Clone, Copy, PartialEq, Eq, Structural)]
pub enum Attention {
    Flow,
    Transaction,
    ClientClosed,
    Traffic,
    Nothing,
}

/// What is to be looked after first: a flow whose worker ended, then an answer of the resolver, then a flow whose
/// client's side is over, then what moved.
pub fn attention(finished: bool, settled: bool, client_closed: bool, moved: bool) -> (r: Attention)
    ensures
        r == (if finished {
            Attention::Flow
        } else if settled {
            Attention::Transaction
        } else if client_closed {
            Attention::ClientClosed
        } else if moved {
            Attention::Traffic
        } else {
            Attention::Nothing
        }),
{
    if finished {
        Attention::Flow
    } else if settled {
        Attention::Transaction
    } else if client_closed {
        Attention::ClientClosed
    } else if moved {
        Attention::Traffic
    } else {
        Attention::Nothing
    }
}

/// The octets that a turn takes off a flow's socket.
pub open spec fn taken_in(turn: Turn) -> Seq<u8> {
    match turn.sent {
        Some(Sending::Pass(bytes)) => bytes@,
        Some(Sending::Abort(Unsent(Some(bytes)))) => bytes@,
        _ => Seq::empty(),
    }
}

/// What a client sent goes upstream in its order, and none of it is left waiting while a place is reserved for it. A
/// turn takes the first octets that can be read, as many of them as are there and fit in a chunk, so that what was
/// taken followed by what can still be read is just what the client sent. They are passed on while somebody receives
/// them and come back otherwise. Without a reserved place, or while the flow does not receive, nothing is taken.
pub proof fn law_readable_octets_go_upstream(flow: Polling, socket: Socket, turn: Turn, chunk: nat)
    requires
        turn_of(flow, socket, turn, chunk),
    ensures
        ({
            let place = flow.transfer@.upstream is Some && flow.transfer@.upstream->0.reserved;
            let readable = socket.readable@;
            let taken = taken_in(turn);
            &&& turn.handle == flow.id.handle
            &&& place && flow.receiving ==> {
                &&& taken.len() == readable.len() || taken.len() == chunk
                &&& taken.len() <= readable.len()
                &&& taken.len() <= chunk
            }
            &&& place && flow.receiving && readable.len() > 0 && chunk > 0 ==> taken.len() > 0
            &&& taken + readable.subrange(taken.len() as int, readable.len() as int) == readable
            &&& turn.sent is Some ==> {
                &&& place && flow.receiving && taken.len() > 0
                &&& socket.upstream_closed ==> turn.sent->0 is Abort
                &&& !socket.upstream_closed ==> turn.sent->0 is Pass
            }
            &&& turn.sent is None ==> !place || !flow.receiving || readable.len() == 0 || chunk == 0
        }),
{
    let readable = socket.readable@;
    let taken = taken_in(turn);
    assert(taken + readable.subrange(taken.len() as int, readable.len() as int) =~= readable);
}

/// A client is told that nothing more comes as soon as the end of what comes for it has reached its row and it may
/// still be sent to, and only then.
pub proof fn law_the_end_is_told_to_the_client(flow: Polling, socket: Socket, turn: Turn, chunk: nat)
    requires
        turn_of(flow, socket, turn, chunk),
    ensures
        flow.transfer@.finished && socket.may_send ==> turn.close,
        !flow.transfer@.finished || !socket.may_send ==> !turn.close,
{
}

/// A turn that takes something uses up the place that was reserved for it, and notes where nobody receives any more.
/// One that takes nothing leaves the place as it was. Neither touches what comes for the client.
pub proof fn law_a_turn_uses_its_place_up(flow: Polling, socket: Socket, turn: Turn, chunk: nat)
    requires
        turn_of(flow, socket, turn, chunk),
    ensures
        ({
            let before = flow.transfer@;
            let after = after_turn(flow, socket, chunk);
            &&& after.chunks == before.chunks
            &&& after.finished == before.finished
            &&& turn.sent is None ==> after.upstream == before.upstream
            &&& turn.sent is Some ==> {
                &&& after.upstream is Some
                &&& !after.upstream->0.reserved
                &&& after.upstream->0.closed == (before.upstream->0.closed || turn.sent->0 is Abort)
            }
        }),
{
}

/// A look at a flow's socket notes that its handshake is over, and never forgets it. Nothing else of the socket
/// changes.
pub proof fn law_a_handshake_once_over_stays_so(socket: Socket)
    ensures
        ({
            let after = after_look(socket);
            &&& socket.opened || socket.established ==> after.established
            &&& !socket.opened && !socket.established ==> !after.established
            &&& after.opened == socket.opened
            &&& after.handshaking == socket.handshaking
            &&& after.may_send == socket.may_send
            &&& after.room == socket.room
            &&& after.readable == socket.readable
            &&& after.upstream_closed == socket.upstream_closed
            &&& after.resolver == socket.resolver
        }),
{
}

/// The octets that are counted towards the upstream are those that the turns took, flow by flow, and what is counted as
/// stranded are the turns whose octets came back. Something moved exactly where a turn told its client the end or took
/// something.
pub proof fn law_every_octet_upstream_is_counted(
    flows: Seq<Polling>,
    sockets: Seq<Socket>,
    turns: Seq<Turn>,
    chunk: nat,
    n: int,
)
    requires
        0 <= n < turns.len(),
        turn_of(flows[n], sockets[n], turns[n], chunk),
    ensures
        octets_taken(flows, sockets, chunk, 0) == 0,
        octets_taken(flows, sockets, chunk, n + 1) - octets_taken(flows, sockets, chunk, n) == taken_in(
            turns[n],
        ).len(),
        stranded(flows, sockets, chunk, 0) == 0,
        turns[n].sent is Some && turns[n].sent->0 is Abort ==> stranded(flows, sockets, chunk, n + 1) == stranded(
            flows,
            sockets,
            chunk,
            n,
        ) + 1,
        turns[n].sent is None || turns[n].sent->0 is Pass ==> stranded(flows, sockets, chunk, n + 1) == stranded(
            flows,
            sockets,
            chunk,
            n,
        ),
        active(flows[n], sockets[n], chunk) == (turns[n].close || turns[n].sent is Some),
{
}

/// A flow's sending ends where its client, whose handshake was over, can send nothing more. A flow whose client may
/// still send goes on, and so does one that never got past its handshake.
pub proof fn law_only_a_finished_client_ends_its_sending(flow: Polling, socket: Socket, may_recv: bool)
    ensures
        may_recv ==> !stops(flow, socket, may_recv),
        !socket.established ==> !stops(flow, socket, may_recv),
        flow.transfer@.upstream is None ==> !stops(flow, socket, may_recv),
        !may_recv && socket.established && flow.transfer@.upstream is Some ==> stops(flow, socket, may_recv),
{
}

/// What a row holds goes to its client as the client's socket takes it. The socket is offered the first octets that
/// have not gone, as many as are there and fit in a chunk, and takes as many of them as it has room for. Where some
/// stay the row stays as it is but for how many have gone, and the flow is back in the order.
pub proof fn law_a_held_chunk_goes_as_it_fits(l: Lane, socket: Socket, chunk: nat, bytes: Seq<u8>)
    requires
        l.row is Some,
        l.row->0.held == Some(bytes),
        l.row->0.offset <= bytes.len(),
        !socket.handshaking,
        socket.may_send,
    ensures
        ({
            let row = l.row->0;
            let t = turn_for(l, Some(socket), chunk);
            let left = bytes.len() - row.offset;
            &&& t.offer is Octets
            &&& ({
                let offered = t.offer->offered;
                let sent = t.offer->sent;
                &&& offered.len() <= left
                &&& offered.len() <= chunk
                &&& offered.len() == left || offered.len() == chunk
                &&& forall|k: int| 0 <= k < offered.len() ==> #[trigger] offered[k] == bytes[row.offset + k]
                &&& sent <= offered.len()
                &&& sent <= socket.room
                &&& sent == offered.len() || sent == socket.room
                &&& sent > 0 ==> t.moved
                &&& sent < left ==> {
                    &&& t.lane.row is Some
                    &&& t.lane.row->0.held == Some(bytes)
                    &&& t.lane.row->0.offset == row.offset + sent
                    &&& t.lane.row->0.ended == row.ended
                    &&& t.lane.row->0.retiring == row.retiring
                    &&& t.lane.transfer == l.transfer
                    &&& t.lane.ready
                    &&& !t.acknowledge
                    &&& t.moved == (sent > 0)
                }
                &&& sent == left ==> {
                    &&& t.moved
                    &&& t.acknowledge == (socket.resolver && l.transfer is Some)
                }
            })
        }),
{
}

/// A row whose octets have all gone is filled with the first chunk that waits, and the flow is back in the order for
/// it. Where nothing waits the row stays empty.
pub proof fn law_an_emptied_row_is_filled_again(l: Lane, socket: Socket, chunk: nat, bytes: Seq<u8>)
    requires
        l.row is Some,
        l.row->0.held == Some(bytes),
        l.row->0.offset <= bytes.len(),
        !l.row->0.retiring,
        !socket.handshaking,
        socket.may_send,
        bytes.len() - l.row->0.offset <= chunk,
        bytes.len() - l.row->0.offset <= socket.room,
    ensures
        ({
            let t = turn_for(l, Some(socket), chunk);
            let more = l.transfer is Some && l.transfer->0.chunks.len() > 0;
            &&& t.lane.row is Some
            &&& !t.lane.row->0.retiring
            &&& more ==> {
                &&& t.lane.ready
                &&& t.lane.transfer is Some
                &&& t.lane.transfer->0.upstream == l.transfer->0.upstream
                &&& t.lane.transfer->0.chunks == l.transfer->0.chunks.subrange(
                    1,
                    l.transfer->0.chunks.len() as int,
                )
            }
            &&& more && l.transfer->0.chunks[0] is Payload ==> {
                &&& t.lane.row->0.held == Some(l.transfer->0.chunks[0]->Payload_0@)
                &&& t.lane.row->0.offset == 0
                &&& !t.lane.row->0.ended
                &&& t.lane.transfer->0.finished == l.transfer->0.finished
            }
            &&& more && l.transfer->0.chunks[0] is Finished ==> {
                &&& t.lane.row->0.held is None
                &&& t.lane.row->0.ended
                &&& t.lane.transfer->0.finished
            }
            &&& !more ==> {
                &&& t.lane.row->0.held is None
                &&& t.lane.row->0.offset == 0
                &&& !t.lane.row->0.ended
                &&& t.lane.transfer == l.transfer
                &&& t.lane.ready == l.ready
            }
        }),
{
    if l.transfer is Some && l.transfer->0.chunks.len() > 0 {
        assert(l.transfer->0.chunks.skip(1) =~= l.transfer->0.chunks.subrange(
            1,
            l.transfer->0.chunks.len() as int,
        ));
    }
}

/// A chunk that waits behind an empty row goes in the very turn that finds the row empty: the client is offered its
/// first octets, as many as are there and fit in a chunk.
pub proof fn law_a_waiting_chunk_goes_at_once(l: Lane, socket: Socket, chunk: nat)
    requires
        l.row is Some,
        l.row->0.held is None,
        !l.row->0.retiring,
        l.transfer is Some,
        l.transfer->0.chunks.len() > 0,
        l.transfer->0.chunks[0] is Payload,
        !socket.handshaking,
        socket.may_send,
    ensures
        ({
            let bytes = l.transfer->0.chunks[0]->Payload_0@;
            let t = turn_for(l, Some(socket), chunk);
            &&& t.offer is Octets
            &&& ({
                let offered = t.offer->offered;
                let sent = t.offer->sent;
                &&& offered.len() <= bytes.len()
                &&& offered.len() <= chunk
                &&& offered.len() == bytes.len() || offered.len() == chunk
                &&& forall|k: int| 0 <= k < offered.len() ==> #[trigger] offered[k] == bytes[k]
                &&& sent <= offered.len()
                &&& sent <= socket.room
                &&& sent == offered.len() || sent == socket.room
                &&& sent < bytes.len() ==> {
                    &&& t.lane.row is Some
                    &&& t.lane.row->0.held == Some(bytes)
                    &&& t.lane.row->0.offset == sent
                    &&& t.lane.ready
                    &&& t.lane.transfer is Some
                    &&& t.lane.transfer->0.chunks == l.transfer->0.chunks.subrange(
                        1,
                        l.transfer->0.chunks.len() as int,
                    )
                }
            })
        }),
{
    assert(l.transfer->0.chunks.skip(1) =~= l.transfer->0.chunks.subrange(1, l.transfer->0.chunks.len() as int));
    let bytes = l.transfer->0.chunks[0]->Payload_0@;
    assert(bytes.subrange(0, bytes.len() as int) =~= bytes);
}

/// A row that has nothing left but the end of the stream tells it in its turn, once: the end is gone from the row
/// after. The end that waits behind an empty row is told in the same turn.
pub proof fn law_the_end_of_the_stream_is_told_once(l: Lane, socket: Socket, chunk: nat)
    requires
        l.row is Some,
        l.row->0.held is None,
        !l.row->0.retiring,
        l.row->0.ended && (l.transfer is None || l.transfer->0.chunks.len() == 0) || !l.row->0.ended && l.transfer
            is Some && l.transfer->0.chunks.len() > 0 && l.transfer->0.chunks[0] is Finished,
        !socket.handshaking,
    ensures
        ({
            let t = turn_for(l, Some(socket), chunk);
            &&& t.offer == OfferState::Nothing { ended: true }
            &&& t.moved
            &&& t.acknowledge == (socket.resolver && l.transfer is Some)
            &&& t.lane.row is Some
            &&& t.lane.row->0.held is None
            &&& !t.lane.row->0.ended
            &&& !t.lane.row->0.retiring
            &&& l.transfer is Some && l.transfer->0.chunks.len() > 0 ==> t.lane.transfer->0.finished
        }),
{
}

/// A flow that is owed nothing has an empty turn: nothing is offered, nothing moves, nobody is told, and its lane stays
/// as it was.
pub proof fn law_nothing_owed_is_nothing_done(l: Lane, socket: Option<Socket>, chunk: nat)
    requires
        l.row is None || l.row->0.held is None && !l.row->0.ended && l.row->0.offset == 0,
        l.row is None || l.row->0.retiring || l.transfer is None || l.transfer->0.chunks.len() == 0,
        socket is None || !socket->0.handshaking,
    ensures
        ({
            let t = turn_for(l, socket, chunk);
            &&& t.offer == OfferState::Nothing { ended: false }
            &&& !t.moved
            &&& !t.acknowledge
            &&& t.lane == l
        }),
{
}

/// A turn in which the client's socket takes nothing loses nothing. While the handshake is under way all stays as it
/// was, and the flow keeps its place in the order unless it is given up. A client that may be sent to no more, or that
/// is gone, leaves what its row holds in the row.
pub proof fn law_a_turn_without_a_taker_loses_nothing(l: Lane, socket: Option<Socket>, chunk: nat, bytes: Seq<u8>)
    requires
        l.row is Some,
        l.row->0.held == Some(bytes),
    ensures
        ({
            let t = turn_for(l, socket, chunk);
            &&& socket is Some && socket->0.handshaking ==> {
                &&& t.offer is Waiting
                &&& t.lane.row == l.row
                &&& t.lane.transfer == l.transfer
                &&& t.lane.ready == !l.row->0.retiring
                &&& !t.moved
                &&& !t.acknowledge
            }
            &&& socket is None ==> t.offer is Gone && t.lane == l && !t.moved && !t.acknowledge
            &&& socket is Some && !socket->0.handshaking && !socket->0.may_send ==> {
                &&& t.offer is Refused
                &&& t.lane == l
                &&& t.moved
                &&& !t.acknowledge
            }
        }),
{
}

/// A flow's socket is that of the first flow with its handle.
pub proof fn law_a_handle_finds_its_first_flow(flows: Seq<Polling>, handle: Handle, i: int)
    requires
        0 <= i <= flows.len(),
        forall|j: int| 0 <= j < i ==> (#[trigger] flows[j]).id.handle != handle,
    ensures
        i < flows.len() && flows[i].id.handle == handle ==> flow_at(flows, handle, 0) == Some(i),
        i == flows.len() ==> flow_at(flows, handle, 0) is None,
{
    lemma_first_flow(flows, handle, 0, i);
}

proof fn lemma_first_flow(flows: Seq<Polling>, handle: Handle, a: int, i: int)
    requires
        0 <= a <= i <= flows.len(),
        forall|j: int| a <= j < i ==> (#[trigger] flows[j]).id.handle != handle,
    ensures
        flow_at(flows, handle, a) == flow_at(flows, handle, i),
    decreases i - a,
{
    if a < i {
        assert(flows[a].id.handle != handle);
        lemma_first_flow(flows, handle, a + 1, i);
    }
}

/// A flow's turn goes by its own row and by the socket that has its handle. What waits behind the row is only seen
/// where the flow that has the socket now is the very flow whose turn it is.
pub proof fn law_a_turn_is_about_its_own_flow(
    fair: FairState,
    flows: Seq<Polling>,
    sockets: Seq<Socket>,
    chunk: nat,
    id: FlowId,
    i: int,
)
    requires
        0 <= i <= flows.len(),
        forall|j: int| 0 <= j < i ==> (#[trigger] flows[j]).id.handle != id.handle,
        i < flows.len() ==> flows[i].id.handle == id.handle,
    ensures
        ({
            let row = if fair.rows.contains_key(id) {
                Some(fair.rows[id])
            } else {
                None
            };
            &&& i < flows.len() && flows[i].id == id ==> turned(fair, flows, sockets, chunk, id) == turn_for(
                Lane { row, transfer: Some(flows[i].transfer@), ready: false },
                Some(sockets[i]),
                chunk,
            )
            &&& i < flows.len() && flows[i].id != id ==> turned(fair, flows, sockets, chunk, id) == turn_for(
                Lane { row, transfer: None, ready: false },
                Some(sockets[i]),
                chunk,
            )
            &&& i == flows.len() ==> turned(fair, flows, sockets, chunk, id) == turn_for(
                Lane { row, transfer: None, ready: false },
                None,
                chunk,
            )
        }),
{
    law_a_handle_finds_its_first_flow(flows, id.handle, i);
}

/// The octets that are counted towards the clients are those that their sockets took, turn by turn, and what is counted
/// as stale are the turns that found their flow gone.
pub proof fn law_every_octet_to_a_client_is_counted(
    fair: FairState,
    flows: Seq<Polling>,
    sockets: Seq<Socket>,
    chunk: nat,
    n: int,
)
    requires
        0 <= n < fair.order.len(),
    ensures
        ({
            let offer = turned(fair, flows, sockets, chunk, fair.order[n]).offer;
            let more = octets_sent(fair, flows, sockets, chunk, n + 1) - octets_sent(fair, flows, sockets, chunk, n);
            let lost = gone(fair, flows, sockets, chunk, n + 1) - gone(fair, flows, sockets, chunk, n);
            &&& octets_sent(fair, flows, sockets, chunk, 0) == 0
            &&& gone(fair, flows, sockets, chunk, 0) == 0
            &&& offer is Octets ==> more == offer->sent && lost == 0
            &&& offer is Gone ==> more == 0 && lost == 1
            &&& !(offer is Octets) && !(offer is Gone) ==> more == 0 && lost == 0
        }),
{
}

/// After a round the order holds just the flows of before whose turns left them ready, and one that came before another
/// still does.
pub proof fn law_who_is_in_the_order_after_a_round(
    fair: FairState,
    flows: Seq<Polling>,
    sockets: Seq<Socket>,
    chunk: nat,
    n: int,
    k: int,
)
    requires
        0 <= k < n <= fair.order.len(),
    ensures
        ({
            let ready = turned(fair, flows, sockets, chunk, fair.order[k]).lane.ready;
            let before = kept(fair, flows, sockets, chunk, k);
            let after = kept(fair, flows, sockets, chunk, n);
            &&& kept(fair, flows, sockets, chunk, 0).len() == 0
            &&& before.len() <= after.len()
            &&& forall|j: int| 0 <= j < before.len() ==> #[trigger] after[j] == before[j]
            &&& ready ==> before.len() < after.len() && after[before.len() as int] == fair.order[k]
            &&& k + 1 == n ==> after.len() == before.len() + if ready {
                1nat
            } else {
                0
            }
        }),
    decreases n,
{
    if k + 1 < n {
        law_who_is_in_the_order_after_a_round(fair, flows, sockets, chunk, n - 1, k);
    }
}

/// A round gives each flow of the order its turn and leaves every other flow alone: a row, and what waits behind it, is
/// as its own turn left it where the flow was in the order, and as it was otherwise.
pub proof fn law_a_round_is_one_turn_each(
    fair: FairState,
    flows: Seq<Polling>,
    sockets: Seq<Socket>,
    chunk: nat,
    id: FlowId,
    j: int,
)
    requires
        0 <= j < flows.len(),
        flows[j].id == id,
        forall|k: int| 0 <= k < j ==> (#[trigger] flows[k]).id.handle != id.handle,
    ensures
        ({
            let t = turned(fair, flows, sockets, chunk, id);
            let row = row_after(fair, flows, sockets, chunk, fair.order, id);
            let transfer = transfer_after(fair, flows, sockets, chunk, fair.order, j);
            &&& fair.order.contains(id) ==> row == t.lane.row && t.lane.transfer == Some(transfer)
            &&& !fair.order.contains(id) ==> transfer == flows[j].transfer@ && (row is Some
                <==> fair.rows.contains_key(id)) && (row is Some ==> row->0 == fair.rows[id])
        }),
{
    law_a_handle_finds_its_first_flow(flows, id.handle, j);
}

/// What is offered to a client is seen as it is, octet by octet.
pub proof fn law_an_offer_is_seen_as_it_is(offer: Offer)
    ensures
        offer is Waiting <==> offer@ is Waiting,
        offer is Gone <==> offer@ is Gone,
        offer is Refused <==> offer@ is Refused,
        offer is Nothing <==> offer@ is Nothing,
        offer is Nothing ==> offer@->ended == offer->ended,
        offer is Octets <==> offer@ is Octets,
        offer is Octets ==> offer@->offered == offer->offered@ && offer@->sent == offer->sent,
{
}

} // verus!
