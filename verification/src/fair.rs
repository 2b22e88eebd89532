//! What each flow still owes its client, and whose turn it is to be served.
use vstd::prelude::*;

use crate::octets::push_range;
use crate::rows::{RowKey, Rows};
use crate::tcp_engine::Handle;

verus! {

/// A flow, told apart from any other that had the same socket before it or will have it after.
#[derive(Clone, Copy, Debug, PartialEq, Eq, Structural)]
pub struct FlowId {
    pub handle: Handle,
    pub worker: u64,
}

impl FlowId {
    pub fn new(handle: Handle, worker: u64) -> (r: Self)
        ensures
            r == (FlowId { handle, worker }),
    {
        FlowId { handle, worker }
    }
}

impl RowKey for FlowId {
    type Model = FlowId;

    open spec fn model(&self) -> FlowId {
        *self
    }

    fn same(&self, other: &Self) -> (r: bool) {
        self.handle.0 == other.handle.0 && self.worker == other.worker
    }
}

/// What serving a flow came to.
#[derive(Clone, Copy, Debug, PartialEq, Eq, Structural)]
pub enum Progress {
    /// All of what was held has gone.
    Consumed,
    /// Nothing is left before the end of the stream, which is told now.
    Eof,
    /// Some of it is still owed. The flow is back in the order.
    Blocked,
    /// Nothing is owed.
    Idle,
}

/// One flow's row: the octets that are being written to its client, and how many of them have gone.
struct Row {
    held: Option<Vec<u8>>,
    offset: usize,
    ended: bool,
    retiring: bool,
}

/// What a row holds.
#[verifier::ext_equal]
pub struct RowState {
    pub held: Option<Seq<u8>>,
    /// How many of the octets that are held have gone.
    pub offset: nat,
    /// Whether the end of the stream comes next.
    pub ended: bool,
    /// Whether the flow is given up.
    pub retiring: bool,
}

impl Row {
    spec fn state(&self) -> RowState {
        RowState {
            held: match self.held {
                Some(bytes) => Some(bytes@),
                None => None,
            },
            offset: self.offset as nat,
            ended: self.ended,
            retiring: self.retiring,
        }
    }
}

impl RowState {
    /// A row that nothing was put into.
    pub open spec fn empty() -> RowState {
        RowState { held: None, offset: 0, ended: false, retiring: false }
    }

    /// No more has gone than was held, and what is given up holds nothing.
    pub open spec fn sound(self) -> bool {
        &&& match self.held {
            Some(bytes) => self.offset <= bytes.len(),
            None => self.offset == 0,
        }
        &&& self.retiring ==> self.held is None && !self.ended
    }

    /// Whether a chunk can be put into it.
    pub open spec fn accepts(self) -> bool {
        self.held is None && !self.retiring
    }

    /// The octets that have not gone yet.
    pub open spec fn remaining(self) -> Option<Seq<u8>> {
        match self.held {
            Some(bytes) => Some(bytes.subrange(self.offset as int, bytes.len() as int)),
            None => None,
        }
    }

    /// The row with octets put into it, none of which have gone.
    pub open spec fn holding(self, bytes: Seq<u8>) -> RowState {
        RowState { held: Some(bytes), offset: 0, ..self }
    }

    /// The row with the end of the stream put into it.
    pub open spec fn ending(self) -> RowState {
        RowState { ended: true, ..self }
    }

    /// The row of a flow that is given up.
    pub open spec fn retired(self) -> RowState {
        RowState { held: None, offset: 0, ended: false, retiring: true }
    }

    /// The row after so many more octets have gone.
    pub open spec fn served(self, sent: nat) -> (RowState, Progress) {
        if self.held is Some && self.offset + sent < self.held->0.len() {
            (RowState { offset: self.offset + sent, ..self }, Progress::Blocked)
        } else if self.ended {
            (RowState { held: None, offset: 0, ended: false, ..self }, Progress::Eof)
        } else if self.held is Some {
            (RowState { held: None, offset: 0, ..self }, Progress::Consumed)
        } else {
            (self, Progress::Idle)
        }
    }
}

/// The rows of the flows, and the order in which they are served.
pub struct FairQueue {
    rows: Rows<FlowId, Row>,
    order: Vec<FlowId>,
    prepared: usize,
}

/// What the rows hold, and the order in which the flows are served.
#[verifier::ext_equal]
pub struct FairState {
    pub rows: Map<FlowId, RowState>,
    pub order: Seq<FlowId>,
    /// How many rows there may be.
    pub prepared: nat,
}

impl View for FairQueue {
    type V = FairState;

    closed spec fn view(&self) -> FairState {
        FairState {
            rows: self.rows@.map_values(|row: Row| row.state()),
            order: self.order@,
            prepared: self.prepared as nat,
        }
    }
}

/// The order with a flow at its end, unless it has its place already.
pub open spec fn queued(order: Seq<FlowId>, id: FlowId) -> Seq<FlowId> {
    if order.contains(id) {
        order
    } else {
        order.push(id)
    }
}

/// The order without a flow.
pub open spec fn dropped(order: Seq<FlowId>, id: FlowId) -> Seq<FlowId> {
    order.filter(|other: FlowId| other != id)
}

impl FairState {
    /// Whether a chunk can be put into a flow's row.
    pub open spec fn accepts(self, id: FlowId) -> bool {
        self.rows.contains_key(id) && self.rows[id].accepts()
    }

    /// The row of a flow, where it has one.
    pub open spec fn row(self, id: FlowId) -> Option<RowState> {
        if self.rows.contains_key(id) {
            Some(self.rows[id])
        } else {
            None
        }
    }

    /// With another row for a flow.
    pub open spec fn with_row(self, id: FlowId, row: RowState) -> FairState {
        FairState { rows: self.rows.insert(id, row), ..self }
    }

    /// With a flow in its place in the order.
    pub open spec fn with_turn(self, id: FlowId) -> FairState {
        FairState { order: queued(self.order, id), ..self }
    }
}

/// How many turns of a round are left.
#[derive(Debug, PartialEq, Eq, Structural)]
pub struct Round {
    left: usize,
}

impl Round {
    pub closed spec fn spec_left(&self) -> nat {
        self.left as nat
    }
}

impl FairQueue {
    /// Every row is sound, no flow has two places in the order, and none has one without a row.
    pub closed spec fn wf(&self) -> bool {
        &&& self.rows.wf()
        &&& forall|id: FlowId| #[trigger] self@.rows.contains_key(id) ==> self@.rows[id].sound()
        &&& self@.order.no_duplicates()
        &&& forall|id: FlowId| #[trigger] self@.order.contains(id) ==> self@.rows.contains_key(id)
    }

    /// What holds of the rows and the order of every queue.
    pub proof fn lemma_wf(&self)
        requires
            self.wf(),
        ensures
            forall|id: FlowId| #[trigger] self@.rows.contains_key(id) ==> self@.rows[id].sound(),
            self@.order.no_duplicates(),
            forall|id: FlowId| #[trigger] self@.order.contains(id) ==> self@.rows.contains_key(id),
    {
    }

    /// No flows, and room for the rows of some.
    pub fn with_capacity(prepared: usize) -> (r: Self)
        ensures
            r.wf(),
            r@ == (FairState { rows: Map::empty(), order: Seq::empty(), prepared: prepared as nat }),
    {
        let r = FairQueue { rows: Rows::new(), order: Vec::new(), prepared };
        assert(r@.rows =~= Map::<FlowId, RowState>::empty());
        assert(r@.order =~= Seq::<FlowId>::empty());
        r
    }

    /// Takes a flow in, unless it is there already or no row is left for it. Says whether it was.
    pub fn register(&mut self, id: FlowId) -> (r: bool)
        requires
            old(self).wf(),
        ensures
            final(self).wf(),
            r == (!old(self)@.rows.contains_key(id) && old(self)@.rows.dom().len() < old(self)@.prepared),
            final(self)@ == if r {
                old(self)@.with_row(id, RowState::empty())
            } else {
                old(self)@
            },
    {
        let count: usize = self.rows.len();
        assert(self@.rows.dom() =~= self.rows@.dom());
        if self.rows.contains(&id) || count >= self.prepared {
            return false;
        }
        self.put(id, Row { held: None, offset: 0, ended: false, retiring: false });
        true
    }

    /// Sound but for one flow, whose row may be out.
    spec fn wf_but(&self, id: FlowId) -> bool {
        &&& self.rows.wf()
        &&& forall|other: FlowId|
            other != id && #[trigger] self@.rows.contains_key(other) ==> self@.rows[other].sound()
        &&& self@.order.no_duplicates()
        &&& forall|other: FlowId|
            other != id && #[trigger] self@.order.contains(other) ==> self@.rows.contains_key(other)
    }

    /// Puts a flow's row in its place.
    fn put(&mut self, id: FlowId, row: Row)
        requires
            old(self).wf_but(id),
            row.state().sound(),
        ensures
            final(self).wf(),
            final(self)@ == old(self)@.with_row(id, row.state()),
    {
        proof {
            let m = self.rows@;
            assert(m.insert(id, row).map_values(|row: Row| row.state()) =~= m.map_values(
                |row: Row| row.state(),
            ).insert(id, row.state()));
        }
        self.rows.insert(id, row);
        assert forall|other: FlowId| #[trigger] self@.rows.contains_key(other) implies self@.rows[other].sound() by {
            if other != id {
                assert(old(self)@.rows.contains_key(other));
            }
        }
        assert forall|other: FlowId| #[trigger] self@.order.contains(other) implies self@.rows.contains_key(other) by {
            assert(old(self)@.order.contains(other));
        }
    }

    /// Takes a flow's row out, to be put back.
    fn take(&mut self, id: FlowId) -> (r: Option<Row>)
        requires
            old(self).wf(),
        ensures
            final(self).wf_but(id),
            match r {
                Some(row) => {
                    &&& old(self)@.rows.contains_key(id)
                    &&& row.state() == old(self)@.rows[id]
                    &&& final(self)@ == (FairState { rows: old(self)@.rows.remove(id), ..old(self)@ })
                    &&& forall|state: RowState|
                        #[trigger] final(self)@.with_row(id, state) == old(self)@.with_row(id, state)
                },
                None => !old(self)@.rows.contains_key(id) && final(self).wf() && final(self)@ == old(self)@,
            },
    {
        let ghost before = self.rows@;
        let taken = self.rows.remove(&id);
        proof {
            assert(before.remove(id).map_values(|row: Row| row.state()) =~= before.map_values(
                |row: Row| row.state(),
            ).remove(id));
            assert forall|other: FlowId|
                other != id && #[trigger] self@.rows.contains_key(other) implies self@.rows[other].sound() by {
                assert(old(self)@.rows.contains_key(other));
            }
            assert forall|other: FlowId|
                other != id && #[trigger] self@.order.contains(other) implies self@.rows.contains_key(other) by {
                assert(old(self)@.order.contains(other));
            }
            assert forall|state: RowState| #[trigger] self@.with_row(id, state) == old(self)@.with_row(id, state) by {
                assert(self@.with_row(id, state) =~= old(self)@.with_row(id, state));
            }
            if taken is None {
                assert(old(self)@.rows.remove(id) =~= old(self)@.rows);
                assert(self@ =~= old(self)@);
                assert forall|other: FlowId|
                    #[trigger] self@.rows.contains_key(other) implies self@.rows[other].sound() by {
                    assert(old(self)@.rows.contains_key(other));
                }
            }
        }
        taken
    }

    /// Gives a flow a place at the end of the order, unless it has one.
    fn queue(&mut self, id: FlowId)
        requires
            old(self).wf(),
            old(self)@.rows.contains_key(id),
        ensures
            final(self).wf(),
            final(self)@ == old(self)@.with_turn(id),
    {
        let mut i: usize = 0;
        while i < self.order.len()
            invariant
                i <= self.order@.len(),
                *self == *old(self),
                self.wf(),
                forall|j: int| 0 <= j < i ==> self.order@[j] != id,
            decreases self.order@.len() - i,
        {
            if self.order[i].same(&id) {
                assert(self@.order.contains(id));
                return;
            }
            i += 1;
        }
        let ghost before = self@;
        self.order.push(id);
        proof {
            assert(!before.order.contains(id));
            assert(self@.rows == before.rows);
            assert forall|other: FlowId| #[trigger] self@.order.contains(other) implies self@.rows.contains_key(
                other,
            ) by {
                let k = self@.order.index_of(other);
                if k < before.order.len() {
                    assert(before.order[k] == other);
                    assert(before.order.contains(other));
                }
            }
            assert forall|other: FlowId|
                #[trigger] self@.rows.contains_key(other) implies self@.rows[other].sound() by {
                assert(before.rows.contains_key(other));
            }
        }
    }

    /// Whether a chunk can be put into a flow's row: it is there, it is not given up, and its row is empty.
    pub fn accepts(&self, id: FlowId) -> (r: bool)
        requires
            self.wf(),
        ensures
            r == self@.accepts(id),
    {
        match self.rows.get(&id) {
            Some(row) => row.held.is_none() && !row.retiring,
            None => false,
        }
    }

    /// Whether a flow is there and not given up.
    pub fn is_admitted(&self, id: FlowId) -> (r: bool)
        requires
            self.wf(),
        ensures
            r == (self@.rows.contains_key(id) && !self@.rows[id].retiring),
    {
        match self.rows.get(&id) {
            Some(row) => !row.retiring,
            None => false,
        }
    }

    /// Whether a flow's client is owed anything out of its row: octets, or the end of the stream.
    pub fn owes(&self, id: FlowId) -> (r: bool)
        requires
            self.wf(),
        ensures
            r == (self@.rows.contains_key(id) && (self@.rows[id].held is Some || self@.rows[id].ended)),
    {
        match self.rows.get(&id) {
            Some(row) => row.held.is_some() || row.ended,
            None => false,
        }
    }

    /// What of a flow's row has not gone yet, up to so many octets.
    pub fn peek_at_most(&self, id: FlowId, most: usize) -> (r: Option<Vec<u8>>)
        requires
            self.wf(),
        ensures
            match r {
                Some(bytes) => {
                    &&& self@.rows.contains_key(id)
                    &&& self@.rows[id].remaining() matches Some(all) && bytes@ == at_most(all, most as nat)
                },
                None => !self@.rows.contains_key(id) || self@.rows[id].held is None,
            },
    {
        match self.rows.get(&id) {
            None => None,
            Some(row) => match &row.held {
                None => None,
                Some(held) => {
                    assert(self@.rows.contains_key(id) && self@.rows[id] == row.state());
                    let end: usize = if held.len() - row.offset < most {
                        held.len()
                    } else {
                        row.offset + most
                    };
                    let mut bytes: Vec<u8> = Vec::new();
                    push_range(&mut bytes, held.as_slice(), row.offset, end);
                    assert(bytes@ =~= at_most(self@.rows[id].remaining()->0, most as nat));
                    Some(bytes)
                },
            },
        }
    }

    /// What of a flow's row has not gone yet.
    pub fn peek(&self, id: FlowId) -> (r: Option<Vec<u8>>)
        requires
            self.wf(),
        ensures
            match r {
                Some(bytes) => self@.rows.contains_key(id) && self@.rows[id].remaining() == Some(bytes@),
                None => !self@.rows.contains_key(id) || self@.rows[id].held is None,
            },
    {
        proof {
            if self.rows@.contains_key(id) && self.rows@[id].held is Some {
                let held = self.rows@[id].held->0;
                assert(held@.len() == held.len());
            }
        }
        self.peek_at_most(id, usize::MAX)
    }

    /// Puts octets into a flow's row, which gives the flow a place in the order. They come back where its row takes
    /// none.
    pub fn deliver(&mut self, id: FlowId, bytes: Vec<u8>) -> (r: Result<(), Vec<u8>>)
        requires
            old(self).wf(),
        ensures
            final(self).wf(),
            r == (if old(self)@.accepts(id) {
                Ok::<(), Vec<u8>>(())
            } else {
                Err(bytes)
            }),
            final(self)@ == if old(self)@.accepts(id) {
                old(self)@.with_row(id, old(self)@.rows[id].holding(bytes@)).with_turn(id)
            } else {
                old(self)@
            },
    {
        if !self.accepts(id) {
            return Err(bytes);
        }
        if let Some(row) = self.take(id) {
            let row = Row { held: Some(bytes), offset: 0, ended: row.ended, retiring: row.retiring };
            self.put(id, row);
            self.queue(id);
        }
        Ok(())
    }

    /// Puts the end of the stream into a flow's row, behind what it holds, which gives the flow a place in the order.
    pub fn signal_eof(&mut self, id: FlowId)
        requires
            old(self).wf(),
        ensures
            final(self).wf(),
            final(self)@ == if old(self)@.rows.contains_key(id) && !old(self)@.rows[id].retiring {
                old(self)@.with_row(id, old(self)@.rows[id].ending()).with_turn(id)
            } else {
                old(self)@
            },
    {
        if !self.is_admitted(id) {
            return;
        }
        if let Some(row) = self.take(id) {
            let row = Row { held: row.held, offset: row.offset, ended: true, retiring: row.retiring };
            self.put(id, row);
            self.queue(id);
        }
    }

    /// Gives a flow a place in the order.
    pub fn mark_ready(&mut self, id: FlowId)
        requires
            old(self).wf(),
        ensures
            final(self).wf(),
            final(self)@ == if old(self)@.rows.contains_key(id) && !old(self)@.rows[id].retiring {
                old(self)@.with_turn(id)
            } else {
                old(self)@
            },
    {
        if self.is_admitted(id) {
            self.queue(id);
        }
    }

    /// Takes a flow's place in the order away.
    fn unqueue(&mut self, id: FlowId)
        requires
            old(self).wf_but(id),
            old(self)@.rows.contains_key(id) ==> old(self)@.rows[id].sound(),
        ensures
            final(self).wf(),
            final(self)@ == (FairState { order: dropped(old(self)@.order, id), ..old(self)@ }),
    {
        let ghost before = self@;
        let mut kept: Vec<FlowId> = Vec::new();
        let mut i: usize = 0;
        assert(dropped(self.order@.take(0), id) =~= Seq::<FlowId>::empty()) by {
            reveal(Seq::filter);
        }
        while i < self.order.len()
            invariant
                i <= self.order@.len(),
                *self == *old(self),
                kept@ == dropped(self.order@.take(i as int), id),
            decreases self.order@.len() - i,
        {
            let other = self.order[i];
            proof {
                assert(self.order@.take(i + 1) =~= self.order@.take(i as int).push(other));
                lemma_dropped_push(self.order@.take(i as int), other, id);
            }
            if !other.same(&id) {
                kept.push(other);
            }
            i += 1;
        }
        proof {
            assert(self.order@.take(i as int) =~= self.order@);
        }
        self.order = kept;
        proof {
            let after = self@;
            assert(after.rows == before.rows);
            assert(after.order == dropped(before.order, id));
            lemma_dropped(before.order, id);
            assert forall|other: FlowId| #[trigger] after.order.contains(other) implies after.rows.contains_key(
                other,
            ) by {
                assert(before.order.contains(other) && other != id);
            }
            assert forall|other: FlowId|
                #[trigger] after.rows.contains_key(other) implies after.rows[other].sound() by {
                assert(before.rows.contains_key(other));
            }
        }
    }

    /// Gives a flow up: nothing is put into its row any more, it loses its place in the order, and what its row held
    /// comes back.
    pub fn begin_retire(&mut self, id: FlowId) -> (r: Option<Vec<u8>>)
        requires
            old(self).wf(),
        ensures
            final(self).wf(),
            match r {
                Some(bytes) => old(self)@.rows.contains_key(id) && old(self)@.rows[id].held == Some(bytes@),
                None => old(self)@.rows.contains_key(id) ==> old(self)@.rows[id].held is None,
            },
            final(self)@ == retired(old(self)@, id),
    {
        match self.take(id) {
            None => {
                proof {
                    lemma_undropped(self@.order, id);
                    assert(self@ =~= retired(old(self)@, id));
                }
                None
            },
            Some(row) => {
                let held = row.held;
                self.put(id, Row { held: None, offset: 0, ended: false, retiring: true });
                self.unqueue(id);
                held
            },
        }
    }

    /// Forgets a flow.
    pub fn forget(&mut self, id: FlowId)
        requires
            old(self).wf(),
        ensures
            final(self).wf(),
            final(self)@ == (FairState {
                rows: old(self)@.rows.remove(id),
                order: dropped(old(self)@.order, id),
                ..old(self)@
            }),
    {
        let taken = self.take(id);
        proof {
            if taken is None {
                assert(old(self)@.rows.remove(id) =~= old(self)@.rows);
            }
        }
        self.unqueue(id);
    }

    /// Begins a round: every flow that has a place in the order now gets one turn.
    pub fn begin_round(&self) -> (r: Round)
        ensures
            r.spec_left() == self@.order.len() <= usize::MAX,
    {
        Round { left: self.order.len() }
    }

    /// Whose turn it is next in a round. The flow loses its place in the order.
    pub fn next(&mut self, round: &mut Round) -> (r: Option<FlowId>)
        requires
            old(self).wf(),
        ensures
            final(self).wf(),
            r == (if old(round).spec_left() > 0 && old(self)@.order.len() > 0 {
                Some(old(self)@.order[0])
            } else {
                None
            }),
            match r {
                Some(_) => {
                    &&& final(round).spec_left() == old(round).spec_left() - 1
                    &&& final(self)@ == (FairState { order: old(self)@.order.skip(1), ..old(self)@ })
                },
                None => *final(round) == *old(round) && final(self)@ == old(self)@,
            },
    {
        if round.left == 0 || self.order.len() == 0 {
            return None;
        }
        round.left -= 1;
        let ghost before = self@;
        let id = self.order.remove(0);
        proof {
            assert(self@.order =~= before.order.skip(1));
            assert(self@.rows == before.rows);
            assert forall|other: FlowId| #[trigger] self@.order.contains(other) implies self@.rows.contains_key(
                other,
            ) by {
                let k = self@.order.index_of(other);
                assert(before.order[k + 1] == other);
                assert(before.order.contains(other));
            }
            assert forall|other: FlowId|
                #[trigger] self@.rows.contains_key(other) implies self@.rows[other].sound() by {
                assert(before.rows.contains_key(other));
            }
        }
        Some(id)
    }

    /// Notes that so many more octets of a flow's row have gone. A flow that is still owed some is put back into the
    /// order.
    pub fn serviced(&mut self, id: FlowId, sent: usize) -> (r: Progress)
        requires
            old(self).wf(),
            old(self)@.rows.contains_key(id) && old(self)@.rows[id].held is Some ==> sent
                <= old(self)@.rows[id].remaining()->0.len(),
        ensures
            final(self).wf(),
            r == (if old(self)@.rows.contains_key(id) {
                old(self)@.rows[id].served(sent as nat).1
            } else {
                Progress::Idle
            }),
            final(self)@ == served(old(self)@, id, sent as nat),
    {
        let row = match self.take(id) {
            None => return Progress::Idle,
            Some(row) => row,
        };
        let ghost before = row.state();
        assert(before.sound()) by {
            assert(old(self)@.rows.contains_key(id));
        }
        let (held, offset, ended, retiring) = (row.held, row.offset, row.ended, row.retiring);
        match held {
            Some(bytes) => {
                if bytes.len() - offset > sent {
                    self.put(id, Row { held: Some(bytes), offset: offset + sent, ended, retiring });
                    self.queue(id);
                    return Progress::Blocked;
                }
                self.put(id, Row { held: None, offset: 0, ended: false, retiring });
                if ended {
                    Progress::Eof
                } else {
                    Progress::Consumed
                }
            },
            None => {
                self.put(id, Row { held: None, offset: 0, ended: false, retiring });
                if ended {
                    Progress::Eof
                } else {
                    Progress::Idle
                }
            },
        }
    }
}

/// The first octets, at most so many.
pub open spec fn at_most(bytes: Seq<u8>, most: nat) -> Seq<u8> {
    if most < bytes.len() {
        bytes.subrange(0, most as int)
    } else {
        bytes
    }
}

/// After a flow was given up.
pub open spec fn retired(s: FairState, id: FlowId) -> FairState {
    FairState {
        rows: if s.rows.contains_key(id) {
            s.rows.insert(id, s.rows[id].retired())
        } else {
            s.rows
        },
        order: dropped(s.order, id),
        ..s
    }
}

/// After so many more octets of a flow's row have gone.
pub open spec fn served(s: FairState, id: FlowId, sent: nat) -> FairState {
    if !s.rows.contains_key(id) {
        s
    } else {
        let (row, progress) = s.rows[id].served(sent);
        if progress is Blocked {
            s.with_row(id, row).with_turn(id)
        } else {
            s.with_row(id, row)
        }
    }
}

proof fn lemma_dropped_push(order: Seq<FlowId>, other: FlowId, id: FlowId)
    ensures
        dropped(order.push(other), id) == if other != id {
            dropped(order, id).push(other)
        } else {
            dropped(order, id)
        },
{
    reveal(Seq::filter);
    assert(order.push(other).drop_last() =~= order);
}

proof fn lemma_dropped(order: Seq<FlowId>, id: FlowId)
    ensures
        forall|other: FlowId|
            #[trigger] dropped(order, id).contains(other) == (order.contains(other) && other != id),
        order.no_duplicates() ==> dropped(order, id).no_duplicates(),
    decreases order.len(),
{
    reveal(Seq::filter);
    if order.len() > 0 {
        let fewer = order.drop_last();
        lemma_dropped(fewer, id);
        assert(order =~= fewer.push(order.last()));
        let short = dropped(fewer, id);
        let long = dropped(order, id);
        assert(long == if order.last() != id { short.push(order.last()) } else { short });
        assert forall|other: FlowId| #[trigger] long.contains(other) == (order.contains(other) && other != id) by {
            assert(short.contains(other) == (fewer.contains(other) && other != id));
            if long.contains(other) {
                let k = long.index_of(other);
                if k < short.len() {
                    assert(short[k] == other);
                    assert(short.contains(other));
                    let j = fewer.index_of(other);
                    assert(order[j] == other);
                }
            }
            if order.contains(other) && other != id {
                let k = order.index_of(other);
                if k < fewer.len() {
                    assert(fewer[k] == other);
                    assert(fewer.contains(other));
                    let j = short.index_of(other);
                    assert(long[j] == other);
                } else {
                    assert(long[short.len() as int] == other);
                }
            }
        }
        if order.no_duplicates() {
            assert(fewer.no_duplicates());
            assert(!fewer.contains(order.last()));
            assert(!short.contains(order.last()));
        }
    }
}

proof fn lemma_undropped(order: Seq<FlowId>, id: FlowId)
    requires
        !order.contains(id),
    ensures
        dropped(order, id) == order,
    decreases order.len(),
{
    reveal(Seq::filter);
    if order.len() > 0 {
        let fewer = order.drop_last();
        assert(!fewer.contains(id)) by {
            if fewer.contains(id) {
                assert(order[fewer.index_of(id)] == id);
            }
        }
        lemma_undropped(fewer, id);
        assert(order[order.len() - 1] != id);
        assert(dropped(order, id) =~= order);
    }
}

/// Octets of a row that have gone are not offered again, and those that have not stay in their order. While any are
/// left the row says that it is blocked. When all have gone it tells the end of the stream where that comes next, once,
/// and that they were consumed otherwise, and it is empty.
pub proof fn law_a_row_goes_octet_by_octet(row: RowState, bytes: Seq<u8>, sent: nat)
    requires
        row.held == Some(bytes),
        row.offset <= bytes.len(),
        row.offset + sent <= bytes.len(),
    ensures
        ({
            let (after, progress) = row.served(sent);
            &&& row.remaining() is Some
            &&& row.remaining()->0.len() == bytes.len() - row.offset
            &&& forall|k: int|
                0 <= k < bytes.len() - row.offset ==> #[trigger] row.remaining()->0[k] == bytes[row.offset + k]
            &&& row.offset + sent < bytes.len() ==> {
                &&& progress is Blocked
                &&& after.remaining() is Some
                &&& row.remaining()->0.subrange(0, sent as int) + after.remaining()->0 == row.remaining()->0
                &&& after.ended == row.ended
                &&& after.retiring == row.retiring
            }
            &&& row.offset + sent == bytes.len() ==> {
                &&& progress == if row.ended {
                    Progress::Eof
                } else {
                    Progress::Consumed
                }
                &&& after.held is None
                &&& after.offset == 0
                &&& !after.ended
                &&& after.retiring == row.retiring
            }
        }),
{
    let (after, progress) = row.served(sent);
    if row.offset + sent < bytes.len() {
        assert(row.remaining()->0.subrange(0, sent as int) + after.remaining()->0 =~= row.remaining()->0);
    }
}

/// A row without octets tells the end of the stream where that comes next, once, and is idle otherwise.
pub proof fn law_an_empty_row_tells_its_end_once(row: RowState, sent: nat)
    requires
        row.held is None,
        row.offset == 0,
    ensures
        row.remaining() is None,
        row.ended ==> row.served(sent).1 is Eof && row.served(sent).0.held is None && !row.served(sent).0.ended,
        row.ended ==> row.served(sent).0.served(sent).1 is Idle,
        !row.ended ==> row.served(sent).1 is Idle && row.served(sent).0 == row,
        row.served(sent).0.retiring == row.retiring,
{
}

/// A row takes octets exactly while it holds none and is not given up. What it is given it offers from the first octet
/// to the last, and takes no more before they have gone. The end of the stream leaves what it holds as it is.
pub proof fn law_a_row_takes_one_chunk_at_a_time(row: RowState, bytes: Seq<u8>)
    ensures
        row.accepts() <==> row.held is None && !row.retiring,
        row.holding(bytes).remaining() == Some(bytes),
        row.holding(bytes).held == Some(bytes),
        row.holding(bytes).offset == 0,
        row.holding(bytes).ended == row.ended,
        row.holding(bytes).retiring == row.retiring,
        !row.holding(bytes).accepts(),
        row.ending().ended,
        row.ending().held == row.held,
        row.ending().offset == row.offset,
        row.ending().retiring == row.retiring,
        RowState::empty().accepts(),
        RowState::empty().held is None,
        RowState::empty().offset == 0,
        !RowState::empty().ended,
{
    assert(bytes.subrange(0, bytes.len() as int) =~= bytes);
}

/// A row that is given up holds nothing, tells nothing, and takes nothing from then on. Its flow has no turn any more,
/// and every other flow keeps its row and its place before and after the others.
pub proof fn law_a_flow_given_up_is_quiet(s: FairState, id: FlowId, other: FlowId)
    ensures
        ({
            let after = retired(s, id);
            &&& after.prepared == s.prepared
            &&& !after.order.contains(id)
            &&& after.rows.dom() == s.rows.dom()
            &&& s.rows.contains_key(id) ==> {
                &&& after.rows[id].held is None
                &&& after.rows[id].offset == 0
                &&& !after.rows[id].ended
                &&& after.rows[id].retiring
                &&& !after.accepts(id)
            }
            &&& other != id ==> {
                &&& after.order.contains(other) == s.order.contains(other)
                &&& s.rows.contains_key(other) ==> after.rows[other] == s.rows[other]
            }
        }),
{
    lemma_dropped(s.order, id);
    assert(retired(s, id).rows.dom() =~= s.rows.dom());
}

/// Taking a flow out of the order takes nothing else out: the others stay in the order they were in.
pub proof fn law_the_others_keep_their_order(order: Seq<FlowId>, id: FlowId, next: FlowId)
    ensures
        dropped(Seq::<FlowId>::empty(), id).len() == 0,
        next == id ==> dropped(order.push(next), id) == dropped(order, id),
        next != id ==> dropped(order.push(next), id) == dropped(order, id).push(next),
        !dropped(order, id).contains(id),
        next != id ==> dropped(order, id).contains(next) == order.contains(next),
{
    lemma_dropped(order, id);
    lemma_dropped_push(order, next, id);
    reveal(Seq::filter);
}

/// A flow that is to have a turn is in the order once, behind all that were in it before. One that was in it keeps its
/// place.
pub proof fn law_a_turn_is_queued_once(order: Seq<FlowId>, id: FlowId)
    ensures
        queued(order, id).contains(id),
        order.contains(id) ==> queued(order, id) == order,
        !order.contains(id) ==> queued(order, id).len() == order.len() + 1 && queued(order, id).last() == id && queued(
            order,
            id,
        ).subrange(0, order.len() as int) == order,
        order.no_duplicates() ==> queued(order, id).no_duplicates(),
{
    if !order.contains(id) {
        assert(queued(order, id)[order.len() as int] == id);
        assert(queued(order, id).subrange(0, order.len() as int) =~= order);
    }
}

/// What was sent for a flow changes its row alone. It has another turn exactly where some of its octets stay owed.
pub proof fn law_service_is_about_one_flow(s: FairState, id: FlowId, sent: nat, other: FlowId)
    ensures
        ({
            let after = served(s, id, sent);
            let owed = s.rows.contains_key(id) && s.rows[id].held is Some && s.rows[id].offset + sent
                < s.rows[id].held->0.len();
            &&& after.prepared == s.prepared
            &&& after.rows.dom() == s.rows.dom()
            &&& other != id && s.rows.contains_key(other) ==> after.rows[other] == s.rows[other]
            &&& s.rows.contains_key(id) ==> after.rows[id] == s.rows[id].served(sent).0
            &&& owed ==> after.order.contains(id) && (!s.order.contains(id) ==> after.order == s.order.push(id))
            &&& !owed ==> after.order == s.order
            &&& s.order.contains(id) ==> after.order == s.order
        }),
{
    let after = served(s, id, sent);
    if s.rows.contains_key(id) {
        assert(after.rows.dom() =~= s.rows.dom());
        law_a_turn_is_queued_once(s.order, id);
    }
}

/// Looking at so many octets shows the first of them, all where there are no more.
pub proof fn law_the_first_octets_are_shown(bytes: Seq<u8>, most: nat)
    ensures
        at_most(bytes, most).len() <= most,
        at_most(bytes, most).len() <= bytes.len(),
        at_most(bytes, most).len() == most || at_most(bytes, most).len() == bytes.len(),
        forall|k: int| 0 <= k < at_most(bytes, most).len() ==> #[trigger] at_most(bytes, most)[k] == bytes[k],
{
}

} // verus!
