//! One flow's two ways: what comes for its client, chunk by chunk, and its place in the queue upstream.
use vstd::prelude::*;

use crate::ended::Ended;
use crate::fair::{retired, FairQueue, FairState, FlowId};
use crate::room::{asked, Asked, Reserving, Room, RoomState, Sending, Unsent};

verus! {

/// What a flow's reader hands over.
#[derive(Debug, PartialEq, Eq)]
pub enum Chunk {
    Payload(Vec<u8>),
    /// Nothing more comes.
    Finished,
}

/// What moving a chunk into a flow's row came to.
#[derive(Debug, Clone, Copy, PartialEq, Eq, Structural)]
pub enum Refilled {
    /// Octets are in the row, and none of them have gone.
    Payload,
    /// The end of the stream is in the row. Everything before it has gone.
    Finished,
    /// The row takes nothing now, and more waits.
    Queued,
    /// There is nothing to take.
    Idle,
    /// The row did not take what was taken for it. A row that says it takes a chunk does take it, so this does not
    /// come about while nobody else writes to the rows.
    Stale,
}

/// What becomes of a flow whose worker ended.
#[derive(Debug, PartialEq, Eq)]
pub enum Disposition<P> {
    /// It goes on without its worker: nothing of it was touched.
    Detach,
    /// It ends. What its row held comes back.
    Retire(Option<P>),
}

/// What a scan of the flows found.
#[derive(Debug, Clone, Copy, PartialEq, Eq, Structural)]
pub enum Ready {
    /// A chunk of this flow is in its row now.
    Delivered(FlowId),
    /// A flow has a place upstream, and something to send.
    Upstream,
    Nothing,
}

/// One flow's two ways: the chunks that came for its client and wait, its place in the queue upstream, while it
/// sends, and whether the end of what comes for its client has reached its row.
pub struct Transfer {
    chunks: Vec<Chunk>,
    upstream: Option<Room>,
    finished: bool,
}

/// Where a flow's two ways stand.
#[verifier::ext_equal]
pub struct TransferState {
    /// What came for the client and waits, the first of it first.
    pub chunks: Seq<Chunk>,
    /// The place in the queue upstream, while the flow sends.
    pub upstream: Option<RoomState>,
    /// Whether the end of what comes for the client has reached its row.
    pub finished: bool,
}

impl View for Transfer {
    type V = TransferState;

    closed spec fn view(&self) -> TransferState {
        TransferState {
            chunks: self.chunks@,
            upstream: match self.upstream {
                Some(room) => Some(room@),
                None => None,
            },
            finished: self.finished,
        }
    }
}

impl TransferState {
    /// Whether a place is reserved.
    pub open spec fn reserved(self) -> bool {
        self.upstream matches Some(room) && room.reserved
    }

    /// After something was asked of its place upstream.
    pub open spec fn having_asked(self, what: Asked) -> TransferState {
        TransferState {
            upstream: match self.upstream {
                Some(room) => Some(asked(room, what).0),
                None => None,
            },
            ..self
        }
    }

    /// After the first chunk that waits was taken.
    pub open spec fn having_taken(self) -> TransferState {
        TransferState {
            chunks: self.chunks.skip(1),
            finished: self.finished || self.chunks[0] is Finished,
            ..self
        }
    }
}

/// Whether a chunk of a flow is to be moved into its row: its row takes one, and one waits.
pub open spec fn moves(fair: FairState, id: FlowId, transfer: TransferState) -> bool {
    fair.accepts(id) && transfer.chunks.len() > 0
}

/// The rows after a chunk was put into one that takes it.
pub open spec fn put(fair: FairState, id: FlowId, chunk: Chunk) -> FairState {
    match chunk {
        Chunk::Payload(bytes) => fair.with_row(id, fair.rows[id].holding(bytes@)).with_turn(id),
        Chunk::Finished => fair.with_row(id, fair.rows[id].ending()).with_turn(id),
    }
}

/// The rows, and a flow's two ways, after a chunk was moved where there was one to be moved.
pub open spec fn refilled(fair: FairState, id: FlowId, transfer: TransferState) -> (FairState, TransferState) {
    if moves(fair, id, transfer) {
        (put(fair, id, transfer.chunks[0]), transfer.having_taken())
    } else {
        (fair, transfer)
    }
}

impl Transfer {
    /// A flow that sends, and for whose client nothing came yet.
    pub fn new() -> (r: Self)
        ensures
            r@ == (TransferState {
                chunks: Seq::empty(),
                upstream: Some(RoomState { reserved: false, closed: false }),
                finished: false,
            }),
    {
        let r = Transfer { chunks: Vec::new(), upstream: Some(Room::new()), finished: false };
        assert(r@.chunks =~= Seq::<Chunk>::empty());
        r
    }

    /// Whether the end of what comes for the client has reached its row.
    pub fn finished(&self) -> (r: bool)
        ensures
            r == self@.finished,
    {
        self.finished
    }

    /// Whether a place is reserved.
    pub fn reserved(&self) -> (r: bool)
        ensures
            r == self@.reserved(),
    {
        match &self.upstream {
            Some(upstream) => upstream.reserved(),
            None => false,
        }
    }

    /// Whether the flow sends.
    pub fn sending(&self) -> (r: bool)
        ensures
            r == self@.upstream is Some,
    {
        self.upstream.is_some()
    }

    /// Says what is to be done with a value. One of a flow that does not send comes back.
    pub fn send<T>(&mut self, value: T, closed: bool) -> (r: Sending<T>)
        ensures
            final(self)@ == old(self)@.having_asked(Asked::Send(closed)),
            r == (if !old(self)@.reserved() {
                Sending::Refuse(Unsent(Some(value)))
            } else if closed {
                Sending::Abort(Unsent(Some(value)))
            } else {
                Sending::Pass(value)
            }),
    {
        match self.upstream {
            Some(room) => {
                let mut room = room;
                let sending = room.send(value, closed);
                self.upstream = Some(room);
                sending
            },
            None => Sending::Refuse(Unsent(Some(value))),
        }
    }

    /// Ends the flow's sending. Its place goes.
    pub fn stop_sending(&mut self)
        ensures
            final(self)@ == (TransferState { upstream: None, ..old(self)@ }),
    {
        self.upstream = None;
    }

    /// Notes what the queue upstream said when it was asked for a place. Says whether there is one.
    pub fn reserve(&mut self, said: Reserving) -> (r: bool)
        ensures
            final(self)@ == old(self)@.having_asked(Asked::Place(said)),
            r == final(self)@.reserved(),
    {
        match self.upstream {
            Some(room) => {
                let mut room = room;
                let reserved = room.reserve(said);
                self.upstream = Some(room);
                reserved
            },
            None => false,
        }
    }

    /// Takes a chunk that came for the client. It waits behind those that came before it.
    pub fn arrived(&mut self, chunk: Chunk)
        ensures
            final(self)@ == (TransferState { chunks: old(self)@.chunks.push(chunk), ..old(self)@ }),
    {
        self.chunks.push(chunk);
    }

    /// Whether a chunk is to be asked for: the flow's row takes one, and none waits.
    pub fn wants(&self, id: FlowId, fair: &FairQueue) -> (r: bool)
        requires
            fair.wf(),
        ensures
            r == (fair@.accepts(id) && self@.chunks.len() == 0),
    {
        fair.accepts(id) && self.chunks.len() == 0
    }

    /// Moves at most one chunk that waits into the flow's row. Nothing is taken while the row is busy, so the end of
    /// the stream stays behind the octets before it.
    pub fn refill(&mut self, id: FlowId, fair: &mut FairQueue) -> (r: Refilled)
        requires
            old(fair).wf(),
        ensures
            final(fair).wf(),
            (final(fair)@, final(self)@) == refilled(old(fair)@, id, old(self)@),
            r == (if moves(old(fair)@, id, old(self)@) {
                match old(self)@.chunks[0] {
                    Chunk::Payload(_) => Refilled::Payload,
                    Chunk::Finished => Refilled::Finished,
                }
            } else if old(self)@.chunks.len() > 0 {
                Refilled::Queued
            } else {
                Refilled::Idle
            }),
    {
        if self.chunks.len() == 0 {
            return Refilled::Idle;
        }
        if !fair.accepts(id) {
            return Refilled::Queued;
        }
        let ghost before = self@;
        let chunk = self.chunks.remove(0);
        assert(self@.chunks =~= before.chunks.skip(1));
        match chunk {
            Chunk::Payload(bytes) => {
                match fair.deliver(id, bytes) {
                    Ok(()) => Refilled::Payload,
                    Err(_) => Refilled::Stale,
                }
            },
            Chunk::Finished => {
                fair.signal_eof(id);
                self.finished = true;
                Refilled::Finished
            },
        }
    }
}

/// Says what becomes of a flow whose worker ended. A flow that goes on keeps its row, what waits behind it and its
/// place in the order. Only one that ends has its row discarded, and what that held comes back.
pub fn dispose(
    ended: &Ended,
    cancelled: bool,
    opened: bool,
    id: FlowId,
    fair: &mut FairQueue,
) -> (r: Disposition<Vec<u8>>)
    requires
        old(fair).wf(),
    ensures
        final(fair).wf(),
        final(fair)@ == if ended.spec_detaches(cancelled, opened) {
            old(fair)@
        } else {
            retired(old(fair)@, id)
        },
        match r {
            Disposition::Detach => ended.spec_detaches(cancelled, opened),
            Disposition::Retire(Some(bytes)) => {
                &&& !ended.spec_detaches(cancelled, opened)
                &&& old(fair)@.rows.contains_key(id)
                &&& old(fair)@.rows[id].held == Some(bytes@)
            },
            Disposition::Retire(None) => {
                &&& !ended.spec_detaches(cancelled, opened)
                &&& old(fair)@.rows.contains_key(id) ==> old(fair)@.rows[id].held is None
            },
        },
{
    if ended.detaches(cancelled, opened) {
        return Disposition::Detach;
    }
    Disposition::Retire(fair.begin_retire(id))
}

/// One flow as a scan sees it. `receiving` says whether its client has sent something that could go upstream.
pub struct Polling {
    pub id: FlowId,
    pub transfer: Transfer,
    pub receiving: bool,
}

/// What a flow is to be asked in a scan.
#[derive(Debug, Clone, Copy, PartialEq, Eq, Structural)]
pub struct Asking {
    /// Its queue upstream, for a place.
    pub place: bool,
    /// Its reader, for a chunk.
    pub chunk: bool,
}

/// Says what the `at`th flow is to be asked, where a scan that came to it goes on: it is over where the flow before
/// it has a chunk to be moved. A busy row is not asked for.
pub fn asking(flows: &Vec<Polling>, fair: &FairQueue, at: usize) -> (r: Option<Asking>)
    requires
        fair.wf(),
    ensures
        r == (if at >= flows@.len() || at > 0 && moves(fair@, flows@[at - 1].id, flows@[at - 1].transfer@) {
            None
        } else {
            let transfer = flows@[at as int].transfer@;
            Some(
                Asking {
                    place: transfer.upstream is Some && !transfer.reserved(),
                    chunk: fair@.accepts(flows@[at as int].id) && transfer.chunks.len() == 0,
                },
            )
        }),
{
    if at >= flows.len() {
        return None;
    }
    if at > 0 {
        let before = &flows[at - 1];
        if fair.accepts(before.id) && before.transfer.chunks.len() > 0 {
            return None;
        }
    }
    let flow = &flows[at];
    Some(
        Asking {
            place: flow.transfer.sending() && !flow.transfer.reserved(),
            chunk: flow.transfer.wants(flow.id, fair),
        },
    )
}

/// The first flow from the `i`th on that has a chunk to be moved.
pub open spec fn first_moving(flows: Seq<Polling>, fair: FairState, i: int) -> Option<int>
    decreases flows.len() - i,
{
    if i < 0 || i >= flows.len() {
        None
    } else if moves(fair, flows[i].id, flows[i].transfer@) {
        Some(i)
    } else {
        first_moving(flows, fair, i + 1)
    }
}

/// A flow that is as it was but for its two ways.
pub open spec fn same_flow(before: Polling, after: Polling) -> bool {
    after.id == before.id && after.receiving == before.receiving
}

/// Scans the flows: moves one chunk of the first flow that has one to be moved into its row, and says which flow that
/// is. Nothing else changes, and where there is no such flow nothing does: then it is said whether any flow has a place
/// upstream and something to send.
pub fn poll_flows(flows: &mut Vec<Polling>, fair: &mut FairQueue) -> (r: Ready)
    requires
        old(fair).wf(),
    ensures
        final(fair).wf(),
        final(flows)@.len() == old(flows)@.len(),
        match first_moving(old(flows)@, old(fair)@, 0) {
            Some(i) => {
                let before = old(flows)@[i];
                &&& r == Ready::Delivered(before.id)
                &&& final(fair)@ == put(old(fair)@, before.id, before.transfer@.chunks[0])
                &&& same_flow(before, final(flows)@[i])
                &&& final(flows)@[i].transfer@ == before.transfer@.having_taken()
                &&& forall|j: int|
                    0 <= j < old(flows)@.len() && j != i ==> #[trigger] final(flows)@[j] == old(flows)@[j]
            },
            None => {
                &&& final(fair)@ == old(fair)@
                &&& final(flows)@ == old(flows)@
                &&& r == if exists|i: int|
                    0 <= i < old(flows)@.len() && (#[trigger] old(flows)@[i]).transfer@.reserved() && old(
                        flows,
                    )@[i].receiving {
                    Ready::Upstream
                } else {
                    Ready::Nothing
                }
            },
        },
{
    let mut upstream = false;
    let mut i: usize = 0;
    while i < flows.len()
        invariant
            i <= flows@.len(),
            *flows == *old(flows),
            *fair == *old(fair),
            fair.wf(),
            first_moving(flows@, fair@, 0) == first_moving(flows@, fair@, i as int),
            upstream == exists|j: int|
                0 <= j < i && (#[trigger] flows@[j]).transfer@.reserved() && flows@[j].receiving,
        decreases flows@.len() - i,
    {
        let ghost was = upstream;
        if flows[i].transfer.reserved() && flows[i].receiving {
            upstream = true;
        }
        proof {
            if was {
                let j = choose|j: int| 0 <= j < i && (#[trigger] flows@[j]).transfer@.reserved() && flows@[j].receiving;
                assert(flows@[j].transfer@.reserved() && flows@[j].receiving);
            }
            assert(upstream == exists|j: int|
                0 <= j < i + 1 && (#[trigger] flows@[j]).transfer@.reserved() && flows@[j].receiving);
        }
        let id = flows[i].id;
        if fair.accepts(id) && flows[i].transfer.chunks.len() > 0 {
            assert(first_moving(flows@, fair@, i as int) == Some(i as int));
            let _ = flows[i].transfer.refill(id, fair);
            return Ready::Delivered(id);
        }
        i += 1;
    }
    if upstream {
        Ready::Upstream
    } else {
        Ready::Nothing
    }
}

/// A flow whose row octets were just moved into is passed over until they have gone, so it cannot hold the scan against
/// the others. What was done for it changes nothing of whether another flow is.
pub proof fn law_a_filled_row_is_passed_over(
    fair: FairState,
    id: FlowId,
    bytes: Vec<u8>,
    transfer: TransferState,
    other: FlowId,
)
    requires
        fair.accepts(id),
    ensures
        !moves(put(fair, id, Chunk::Payload(bytes)), id, transfer),
        other != id ==> put(fair, id, Chunk::Payload(bytes)).accepts(other) == fair.accepts(other),
{
}

/// The octets of the chunks that wait, one chunk after the other, up to the end of the stream.
pub open spec fn waiting(chunks: Seq<Chunk>) -> Seq<u8>
    decreases chunks.len(),
{
    if chunks.len() == 0 {
        Seq::empty()
    } else {
        match chunks[0] {
            Chunk::Payload(bytes) => bytes@ + waiting(chunks.skip(1)),
            Chunk::Finished => Seq::empty(),
        }
    }
}

/// What a flow's client is owed: what of its row has not gone, and then what waits behind it. Nothing comes after the
/// end of the stream.
pub open spec fn owed(fair: FairState, id: FlowId, transfer: TransferState) -> Seq<u8> {
    if !fair.rows.contains_key(id) {
        Seq::empty()
    } else {
        let held = match fair.rows[id].remaining() {
            Some(bytes) => bytes,
            None => Seq::empty(),
        };
        if fair.rows[id].ended {
            held
        } else {
            held + waiting(transfer.chunks)
        }
    }
}

/// Moving a chunk into a flow's row changes nothing of what its client is owed, octet by octet. Where the end of the
/// stream is what was moved, nothing was owed before it.
pub proof fn law_a_moved_chunk_is_owed_as_before(fair: FairState, id: FlowId, transfer: TransferState)
    requires
        fair.rows.contains_key(id),
        !fair.rows[id].ended,
    ensures
        ({
            let (after, then) = refilled(fair, id, transfer);
            &&& owed(after, id, then) == owed(fair, id, transfer)
            &&& then.finished && !transfer.finished ==> owed(fair, id, transfer).len() == 0
        }),
{
    if moves(fair, id, transfer) {
        let (after, then) = refilled(fair, id, transfer);
        match transfer.chunks[0] {
            Chunk::Payload(bytes) => {
                assert(bytes@.subrange(0, bytes@.len() as int) =~= bytes@);
                assert(owed(after, id, then) =~= owed(fair, id, transfer));
            },
            Chunk::Finished => {
                assert(owed(fair, id, transfer) =~= Seq::<u8>::empty());
                assert(owed(after, id, then) =~= Seq::<u8>::empty());
            },
        }
    }
}

/// A chunk that comes is owed after everything that was owed before it.
pub proof fn law_what_comes_is_owed_last(fair: FairState, id: FlowId, transfer: TransferState, bytes: Vec<u8>)
    requires
        fair.rows.contains_key(id),
        !fair.rows[id].ended,
        forall|i: int| 0 <= i < transfer.chunks.len() ==> #[trigger] transfer.chunks[i] is Payload,
    ensures
        owed(
            fair,
            id,
            TransferState { chunks: transfer.chunks.push(Chunk::Payload(bytes)), ..transfer },
        ) == owed(fair, id, transfer) + bytes@,
{
    lemma_waiting_push(transfer.chunks, bytes);
    assert(owed(
        fair,
        id,
        TransferState { chunks: transfer.chunks.push(Chunk::Payload(bytes)), ..transfer },
    ) =~= owed(fair, id, transfer) + bytes@);
}

proof fn lemma_waiting_push(chunks: Seq<Chunk>, bytes: Vec<u8>)
    requires
        forall|i: int| 0 <= i < chunks.len() ==> #[trigger] chunks[i] is Payload,
    ensures
        waiting(chunks.push(Chunk::Payload(bytes))) == waiting(chunks) + bytes@,
    decreases chunks.len(),
{
    let longer = chunks.push(Chunk::Payload(bytes));
    if chunks.len() == 0 {
        assert(longer.skip(1) =~= Seq::<Chunk>::empty());
        assert(waiting(longer.skip(1)) =~= Seq::<u8>::empty());
        assert(waiting(longer) =~= bytes@);
        assert(waiting(chunks) + bytes@ =~= bytes@);
    } else {
        assert(longer.skip(1) =~= chunks.skip(1).push(Chunk::Payload(bytes)));
        assert forall|i: int| 0 <= i < chunks.skip(1).len() implies #[trigger] chunks.skip(1)[i] is Payload by {
            assert(chunks.skip(1)[i] == chunks[i + 1]);
        }
        lemma_waiting_push(chunks.skip(1), bytes);
        assert(chunks[0] is Payload);
        assert(longer[0] == chunks[0]);
        assert(waiting(longer) =~= waiting(chunks) + bytes@);
    }
}

/// The first chunk that waits is moved exactly where the flow's row is there, holds nothing and is not given up. Octets
/// come into the row whole and from the first of them, the end of the stream is noted as coming next, and the flow has
/// a turn for either. The chunks behind it wait on in their order, and nobody else's row changes.
pub proof fn law_a_chunk_moves_into_a_free_row(fair: FairState, id: FlowId, transfer: TransferState, other: FlowId)
    ensures
        ({
            let free = fair.rows.contains_key(id) && fair.rows[id].held is None && !fair.rows[id].retiring;
            let (after, then) = refilled(fair, id, transfer);
            &&& free && transfer.chunks.len() > 0 ==> {
                &&& then.chunks == transfer.chunks.subrange(1, transfer.chunks.len() as int)
                &&& after.order.contains(id)
                &&& after.rows.contains_key(id)
                &&& transfer.chunks[0] is Payload ==> {
                    &&& after.rows[id].held == Some(transfer.chunks[0]->Payload_0@)
                    &&& after.rows[id].offset == 0
                    &&& after.rows[id].ended == fair.rows[id].ended
                    &&& then.finished == transfer.finished
                }
                &&& transfer.chunks[0] is Finished ==> {
                    &&& after.rows[id].held is None
                    &&& after.rows[id].ended
                    &&& then.finished
                }
                &&& !after.rows[id].retiring
            }
            &&& !free || transfer.chunks.len() == 0 ==> after == fair && then == transfer
            &&& then.upstream == transfer.upstream
            &&& other != id ==> {
                &&& after.rows.contains_key(other) == fair.rows.contains_key(other)
                &&& fair.rows.contains_key(other) ==> after.rows[other] == fair.rows[other]
                &&& fair.order.contains(other) ==> after.order.contains(other)
            }
        }),
{
    let (after, then) = refilled(fair, id, transfer);
    if moves(fair, id, transfer) {
        assert(then.chunks =~= transfer.chunks.subrange(1, transfer.chunks.len() as int));
        if !fair.order.contains(id) {
            assert(after.order[fair.order.len() as int] == id);
            if fair.order.contains(other) {
                assert(after.order[fair.order.index_of(other)] == other);
            }
        }
    }
}

/// A place is asked of the queue alone: what comes for the client stays as it was. A place that the queue grants is
/// there until something is sent, a closed queue grants none, and one that has not decided changes nothing.
pub proof fn law_what_asking_for_a_place_changes(transfer: TransferState, room: RoomState, said: Reserving)
    requires
        transfer.upstream == Some(room),
    ensures
        ({
            let after = transfer.having_asked(Asked::Place(said));
            &&& after.chunks == transfer.chunks
            &&& after.finished == transfer.finished
            &&& after.upstream is Some
            &&& after.reserved() == after.upstream->0.reserved
            &&& room.reserved ==> after.upstream->0.reserved && after.upstream->0.closed == room.closed
            &&& !room.reserved && !room.closed && said is Granted ==> after.upstream->0.reserved
            &&& !room.reserved && said is Closed ==> !after.upstream->0.reserved && after.upstream->0.closed
            &&& !room.reserved && said is Pending ==> after == transfer
            &&& !room.reserved && room.closed ==> !after.upstream->0.reserved
        }),
{
}

/// A flow that does not send has no place, and none can be had for it.
pub proof fn law_a_flow_that_sends_no_more_has_no_place(transfer: TransferState, what: Asked)
    requires
        transfer.upstream is None,
    ensures
        !transfer.reserved(),
        transfer.having_asked(what) == transfer,
{
}

/// The flow that a scan moves a chunk of is the first whose row is free and that has one waiting.
pub proof fn law_the_first_flow_with_a_chunk_moves(flows: Seq<Polling>, fair: FairState, i: int)
    requires
        0 <= i <= flows.len(),
        forall|j: int|
            0 <= j < i ==> {
                let flow = #[trigger] flows[j];
                ||| flow.transfer@.chunks.len() == 0
                ||| !fair.rows.contains_key(flow.id)
                ||| fair.rows[flow.id].held is Some
                ||| fair.rows[flow.id].retiring
            },
    ensures
        i == flows.len() ==> first_moving(flows, fair, 0) is None,
        i < flows.len() && flows[i].transfer@.chunks.len() > 0 && fair.rows.contains_key(flows[i].id)
            && fair.rows[flows[i].id].held is None && !fair.rows[flows[i].id].retiring ==> first_moving(flows, fair, 0)
            == Some(i),
{
    lemma_first_moving(flows, fair, 0, i);
}

proof fn lemma_first_moving(flows: Seq<Polling>, fair: FairState, a: int, i: int)
    requires
        0 <= a <= i <= flows.len(),
        forall|j: int|
            0 <= j < i ==> {
                let flow = #[trigger] flows[j];
                ||| flow.transfer@.chunks.len() == 0
                ||| !fair.rows.contains_key(flow.id)
                ||| fair.rows[flow.id].held is Some
                ||| fair.rows[flow.id].retiring
            },
    ensures
        first_moving(flows, fair, a) == first_moving(flows, fair, i),
    decreases i - a,
{
    if a < i {
        let flow = flows[a];
        assert(!moves(fair, flow.id, flow.transfer@));
        lemma_first_moving(flows, fair, a + 1, i);
    }
}

/// A scan changes nothing of a flow but what waits for it: the flow stays the same flow, and so does whether it
/// receives.
pub proof fn law_a_flow_keeps_its_name(before: Polling, after: Polling)
    ensures
        same_flow(before, after) <==> after.id.handle == before.id.handle && after.id.worker == before.id.worker
            && after.receiving == before.receiving,
{
}

} // verus!
