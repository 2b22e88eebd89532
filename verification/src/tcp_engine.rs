//! The flows of the client-side stack: who they are, when they are given up, and what was counted.
use vstd::prelude::*;

use crate::addr::SocketAddr;
use crate::rows::{lemma_rows, undue, Dated, RowKey, Rows};
use crate::text::{decimal, listed, push_decimal, push_field};
use crate::workers::{Held, TaskId, Workers};

verus! {

/// A socket of the client-side stack.
#[derive(Clone, Copy, Debug, PartialEq, Eq, Structural)]
pub struct Handle(pub u64);

impl RowKey for Handle {
    type Model = Handle;

    open spec fn model(&self) -> Handle {
        *self
    }

    fn same(&self, other: &Self) -> (r: bool) {
        self.0 == other.0
    }
}

/// A flow between a client and a destination.
#[derive(Clone, Copy, Debug, PartialEq, Eq, Structural)]
pub struct Flow {
    pub client: SocketAddr,
    pub destination: SocketAddr,
    /// Whether something moved since its deadline was last put off.
    pub refresh: bool,
    /// When it is given up.
    pub deadline: Option<u64>,
    /// When the engine wakes for it.
    pub armed: Option<u64>,
    /// Whether only its client's side is left.
    pub client_closing: bool,
    /// Whether it holds a descriptor that was granted to it.
    pub upstream_lease: bool,
}

/// Where a flow's octets go.
#[derive(Clone, Copy, Debug, PartialEq, Eq, Structural)]
pub enum Transport {
    /// To the resolver.
    Resolver,
    /// To its destination, over a socket that a descriptor was granted for.
    Upstream,
    /// Nowhere: no socket could be opened, and its worker tells so.
    Unopened,
}

/// When the engine wakes for a flow.
#[derive(Clone, Copy, Debug, PartialEq, Eq, Structural)]
pub struct Armed {
    pub due: u64,
}

impl Dated for Armed {
    open spec fn due(&self) -> u64 {
        self.due
    }

    fn deadline(&self) -> (r: u64) {
        self.due
    }
}

/// How often each thing happened.
#[derive(Clone, Copy, Debug, PartialEq, Eq, Structural)]
pub struct Counters {
    pub opened: u64,
    pub resolved: u64,
    pub answered_here: u64,
    pub denied: u64,
    pub unadmitted: u64,
    pub unsettled: u64,
    pub reset: u64,
    pub tail_failed: u64,
    pub expired: u64,
    pub client_closing: u64,
    pub closed: u64,
    pub to_upstream: u64,
    pub to_client: u64,
    pub stale: u64,
    pub unconsumed: u64,
}

/// Whether every counter can still be counted up.
pub open spec fn countable(c: Counters) -> bool {
    &&& c.opened < u64::MAX && c.resolved < u64::MAX && c.answered_here < u64::MAX && c.denied < u64::MAX
    &&& c.unadmitted < u64::MAX && c.unsettled < u64::MAX && c.reset < u64::MAX && c.tail_failed < u64::MAX
    &&& c.expired < u64::MAX && c.client_closing < u64::MAX && c.closed < u64::MAX
    &&& c.to_upstream < u64::MAX && c.to_client < u64::MAX && c.stale < u64::MAX && c.unconsumed < u64::MAX
}

/// What was counted.
pub open spec fn counters_text(c: Counters) -> Seq<char> {
    "opened "@ + decimal(c.opened as nat) + " resolved "@ + decimal(c.resolved as nat) + " answered-here "@
        + decimal(c.answered_here as nat) + " denied "@ + decimal(c.denied as nat) + " unadmitted "@
        + decimal(c.unadmitted as nat) + " unsettled "@ + decimal(c.unsettled as nat) + " reset "@ + decimal(
        c.reset as nat,
    ) + " tail-failed "@ + decimal(c.tail_failed as nat) + " expired "@ + decimal(c.expired as nat)
        + " client-closing "@ + decimal(c.client_closing as nat) + " closed "@ + decimal(c.closed as nat)
        + " to-upstream "@ + decimal(c.to_upstream as nat) + " to-client "@ + decimal(c.to_client as nat)
        + " stale "@ + decimal(c.stale as nat) + " unconsumed "@ + decimal(c.unconsumed as nat)
}

impl Counters {
    /// Whether every counter can count one more.
    pub fn can_count(&self) -> (r: bool)
        ensures
            r == countable(*self),
    {
        self.opened < u64::MAX && self.resolved < u64::MAX && self.answered_here < u64::MAX
            && self.denied < u64::MAX && self.unadmitted < u64::MAX && self.unsettled < u64::MAX
            && self.reset < u64::MAX && self.tail_failed < u64::MAX && self.expired < u64::MAX
            && self.client_closing < u64::MAX && self.closed < u64::MAX && self.to_upstream < u64::MAX
            && self.to_client < u64::MAX && self.stale < u64::MAX && self.unconsumed < u64::MAX
    }

    /// Nothing happened.
    pub open spec fn zero() -> Counters {
        Counters {
            opened: 0,
            resolved: 0,
            answered_here: 0,
            denied: 0,
            unadmitted: 0,
            unsettled: 0,
            reset: 0,
            tail_failed: 0,
            expired: 0,
            client_closing: 0,
            closed: 0,
            to_upstream: 0,
            to_client: 0,
            stale: 0,
            unconsumed: 0,
        }
    }

    /// Nothing happened.
    pub fn new() -> (r: Self)
        ensures
            r == Self::zero(),
    {
        Counters {
            opened: 0,
            resolved: 0,
            answered_here: 0,
            denied: 0,
            unadmitted: 0,
            unsettled: 0,
            reset: 0,
            tail_failed: 0,
            expired: 0,
            client_closing: 0,
            closed: 0,
            to_upstream: 0,
            to_client: 0,
            stale: 0,
            unconsumed: 0,
        }
    }

    /// Says what was counted.
    pub fn describe(&self) -> (r: String)
        ensures
            r@ == counters_text(*self),
    {
        let mut out = "opened ".to_owned();
        push_decimal(&mut out, self.opened);
        push_field(&mut out, " resolved ", self.resolved);
        push_field(&mut out, " answered-here ", self.answered_here);
        push_field(&mut out, " denied ", self.denied);
        push_field(&mut out, " unadmitted ", self.unadmitted);
        push_field(&mut out, " unsettled ", self.unsettled);
        push_field(&mut out, " reset ", self.reset);
        push_field(&mut out, " tail-failed ", self.tail_failed);
        push_field(&mut out, " expired ", self.expired);
        push_field(&mut out, " client-closing ", self.client_closing);
        push_field(&mut out, " closed ", self.closed);
        push_field(&mut out, " to-upstream ", self.to_upstream);
        push_field(&mut out, " to-client ", self.to_client);
        push_field(&mut out, " stale ", self.stale);
        push_field(&mut out, " unconsumed ", self.unconsumed);
        out
    }
}

/// The flows, when the engine wakes for them, and the order in which they take turns.
pub struct Engine {
    flows: Workers<Handle, Flow>,
    idle: Rows<Handle, Armed>,
    outgoing: Vec<Handle>,
    counters: Counters,
    stack: Option<u64>,
    stack_stale: bool,
}

/// What an engine knows.
#[verifier::ext_equal]
pub struct EngineState {
    pub flows: Map<Handle, Held<Flow>>,
    /// The tasks of workers that have not ended.
    pub running: Map<u64, (Handle, u64)>,
    pub next_identity: u64,
    pub idle: Map<Handle, Armed>,
    pub outgoing: Seq<Handle>,
    pub counters: Counters,
    pub stack: Option<u64>,
    pub stack_stale: bool,
}

impl View for Engine {
    type V = EngineState;

    closed spec fn view(&self) -> EngineState {
        EngineState {
            flows: self.flows.spec_held(),
            running: self.flows.spec_running(),
            next_identity: self.flows.spec_next(),
            idle: self.idle@,
            outgoing: self.outgoing@,
            counters: self.counters,
            stack: self.stack,
            stack_stale: self.stack_stale,
        }
    }
}

/// The order indexes exactly the flows, the engine wakes for exactly the flows that are armed, when they are, and
/// a flow of which only the client's side is left holds no descriptor.
pub open spec fn consistent(s: EngineState) -> bool {
    &&& s.outgoing.no_duplicates()
    &&& forall|h: Handle| #[trigger] s.outgoing.contains(h) <==> s.flows.contains_key(h)
    &&& indexed(s)
    &&& unleased(s)
}

/// A flow of which only the client's side is left holds no descriptor.
pub open spec fn unleased(s: EngineState) -> bool {
    forall|h: Handle|
        #[trigger] s.flows.contains_key(h) && s.flows[h].record.client_closing
            ==> !s.flows[h].record.upstream_lease
}

/// The engine wakes for exactly the flows that are armed, when they are.
pub open spec fn indexed(s: EngineState) -> bool {
    &&& forall|h: Handle|
        #[trigger] s.idle.contains_key(h) ==> s.flows.contains_key(h) && s.flows[h].record.armed == Some(
            s.idle[h].due,
        )
    &&& forall|h: Handle|
        #[trigger] s.flows.contains_key(h) && s.flows[h].record.armed is Some ==> s.idle.contains_key(h)
}

/// When a flow is given up: never by its deadline once it was cancelled.
pub open spec fn due_of(held: Held<Flow>) -> Option<u64> {
    if held.cancelled {
        None
    } else {
        held.record.deadline
    }
}

/// A row with another flow in it.
pub open spec fn with_record(held: Held<Flow>, record: Flow) -> Held<Flow> {
    Held { id: held.id, cancelled: held.cancelled, record }
}

/// What the engine wakes for after a flow's time was looked at again.
pub open spec fn idle_with(idle: Map<Handle, Armed>, h: Handle, due: Option<u64>) -> Map<Handle, Armed> {
    match due {
        Some(due) => idle.insert(h, Armed { due }),
        None => idle.remove(h),
    }
}

/// An engine that has looked at a flow's time again: it wakes when the flow is given up.
pub open spec fn reindexed(s: EngineState, h: Handle) -> EngineState {
    if s.flows.contains_key(h) {
        let held = s.flows[h];
        let due = due_of(held);
        EngineState {
            flows: s.flows.insert(h, with_record(held, Flow { armed: due, ..held.record })),
            idle: idle_with(s.idle, h, due),
            ..s
        }
    } else {
        s
    }
}

/// An engine after a flow was taken in.
pub open spec fn opened(
    s: EngineState,
    h: Handle,
    id: u64,
    flow: Flow,
    task: u64,
    resolver: bool,
) -> EngineState {
    let c = s.counters;
    let in_place = EngineState {
        flows: s.flows.insert(h, Held { id, cancelled: false, record: flow }),
        running: s.running.insert(task, (h, id)),
        outgoing: s.outgoing.push(h),
        counters: Counters {
            opened: (c.opened + 1) as u64,
            resolved: if resolver { (c.resolved + 1) as u64 } else { c.resolved },
            ..c
        },
        stack_stale: true,
        ..s
    };
    reindexed(in_place, h)
}

/// An engine after a flow's deadline was put off, if it is still that flow and was not cancelled.
pub open spec fn rearmed(s: EngineState, h: Handle, id: u64, deadline: Option<u64>) -> EngineState {
    if s.flows.contains_key(h) && s.flows[h].id == id && !s.flows[h].cancelled {
        let held = s.flows[h];
        reindexed(
            EngineState {
                flows: s.flows.insert(h, with_record(held, Flow { deadline, ..held.record })),
                ..s
            },
            h,
        )
    } else {
        s
    }
}

/// The same engine with other counters.
pub open spec fn counting(s: EngineState, counters: Counters) -> EngineState {
    EngineState { counters, ..s }
}

/// An order without a handle.
pub open spec fn forgotten(order: Seq<Handle>, h: Handle) -> Seq<Handle> {
    if order.contains(h) {
        order.remove(order.index_of(h))
    } else {
        order
    }
}

/// An engine after a flow was given up for good.
pub open spec fn reclaimed(s: EngineState, h: Handle) -> EngineState {
    EngineState {
        flows: s.flows.remove(h),
        idle: s.idle.remove(h),
        outgoing: forgotten(s.outgoing, h),
        counters: Counters { closed: (s.counters.closed + 1) as u64, ..s.counters },
        stack_stale: true,
        ..s
    }
}

proof fn lemma_forgotten(order: Seq<Handle>, h: Handle)
    requires
        order.no_duplicates(),
    ensures
        forgotten(order, h).no_duplicates(),
        forall|o: Handle| #[trigger] forgotten(order, h).contains(o) <==> order.contains(o) && o != h,
{
    if order.contains(h) {
        let k = order.index_of(h);
        let rest = order.remove(k);
        assert forall|o: Handle| #[trigger] rest.contains(o) <==> order.contains(o) && o != h by {
            if rest.contains(o) {
                let i = choose|i: int| 0 <= i < rest.len() && rest[i] == o;
                if i < k {
                    assert(order[i] == o);
                } else {
                    assert(order[i + 1] == o);
                }
            }
            if order.contains(o) && o != h {
                let i = choose|i: int| 0 <= i < order.len() && order[i] == o;
                if i < k {
                    assert(rest[i] == o);
                } else {
                    assert(rest[i - 1] == o);
                }
            }
        }
    }
}

proof fn lemma_pushed(order: Seq<Handle>, h: Handle)
    requires
        order.no_duplicates(),
        !order.contains(h),
    ensures
        order.push(h).no_duplicates(),
        forall|o: Handle| #[trigger] order.push(h).contains(o) <==> order.contains(o) || o == h,
{
    let more = order.push(h);
    assert forall|o: Handle| #[trigger] more.contains(o) <==> order.contains(o) || o == h by {
        if order.contains(o) {
            let i = choose|i: int| 0 <= i < order.len() && order[i] == o;
            assert(more[i] == o);
        }
        if o == h {
            assert(more[order.len() as int] == o);
        }
        if more.contains(o) {
            let i = choose|i: int| 0 <= i < more.len() && more[i] == o;
            if i < order.len() {
                assert(order[i] == o);
            }
        }
    }
}

impl Engine {
    pub closed spec fn wf(&self) -> bool {
        &&& self.flows.wf()
        &&& self.idle.wf()
        &&& consistent(self@)
    }

    /// The turns go to exactly the flows, each once, the engine wakes for exactly the flows that are armed, and a
    /// flow of which only the client's side is left holds no descriptor.
    pub proof fn law_index_matches_flows(&self)
        requires
            self.wf(),
        ensures
            consistent(self@),
    {
    }

    /// No flows.
    pub fn new() -> (r: Self)
        ensures
            r.wf(),
            r@ == (EngineState {
                flows: Map::<Handle, Held<Flow>>::empty(),
                running: Map::<u64, (Handle, u64)>::empty(),
                next_identity: 0,
                idle: Map::<Handle, Armed>::empty(),
                outgoing: Seq::<Handle>::empty(),
                counters: Counters::zero(),
                stack: None,
                stack_stale: true,
            }),
    {
        Engine {
            flows: Workers::new(),
            idle: Rows::new(),
            outgoing: Vec::new(),
            counters: Counters::new(),
            stack: None,
            stack_stale: true,
        }
    }

    /// An identity for the next flow.
    pub fn identity(&mut self) -> (r: Option<u64>)
        requires
            old(self).wf(),
        ensures
            final(self).wf(),
            match r {
                Some(id) => id < u64::MAX && id == old(self)@.next_identity && final(self)@ == (EngineState {
                    next_identity: (id + 1) as u64,
                    ..old(self)@
                }),
                None => old(self)@.next_identity == u64::MAX && final(self)@ == old(self)@,
            },
    {
        match self.flows.identity() {
            Ok(id) => Some(id),
            Err(_) => None,
        }
    }

    fn put(&mut self, h: Handle, record: Flow)
        requires
            old(self).flows.wf(),
            old(self).idle.wf(),
            old(self)@.flows.contains_key(h),
        ensures
            final(self).flows.wf(),
            final(self).idle.wf(),
            final(self)@ == (EngineState {
                flows: old(self)@.flows.insert(h, with_record(old(self)@.flows[h], record)),
                ..old(self)@
            }),
    {
        self.flows.replace(h, record);
    }

    fn reindex(&mut self, h: Handle)
        requires
            old(self).flows.wf(),
            old(self).idle.wf(),
        ensures
            final(self).flows.wf(),
            final(self).idle.wf(),
            final(self)@ == reindexed(old(self)@, h),
    {
        let (cancelled, record) = match self.flows.get(&h) {
            Some(held) => (held.cancelled, held.record),
            None => return,
        };
        let due: Option<u64> = if cancelled {
            None
        } else {
            record.deadline
        };
        match due {
            Some(due) => {
                self.idle.insert(h, Armed { due });
            },
            None => {
                self.idle.remove(&h);
            },
        }
        self.put(h, Flow { armed: due, ..record });
    }

    fn admitted(&mut self, h: Handle, id: u64, flow: Flow, task: TaskId, resolver: bool)
        requires
            old(self).wf(),
            countable(old(self)@.counters),
            !old(self)@.flows.contains_key(h),
            !old(self)@.running.contains_key(task.0),
            flow.armed is None,
            !flow.client_closing,
        ensures
            final(self).wf(),
            final(self)@ == opened(old(self)@, h, id, flow, task.0, resolver),
    {
        let ghost before = self@;
        let enrolled = self.flows.enroll(h, id, flow, task);
        assert(enrolled is Ok);
        proof {
            assert(!before.outgoing.contains(h));
            lemma_pushed(before.outgoing, h);
        }
        self.outgoing.push(h);
        self.counters.opened += 1;
        if resolver {
            self.counters.resolved += 1;
        }
        self.stack_stale = true;
        self.reindex(h);
    }

    /// Takes a flow in that was built, and tells whether it did: it has to have a transport, and its socket may not
    /// be another flow's. One that is not taken in is counted, and what it was built with is undone.
    pub fn start(
        &mut self,
        h: Handle,
        id: u64,
        transport: Option<Transport>,
        client: SocketAddr,
        destination: SocketAddr,
        deadline: Option<u64>,
        task: TaskId,
    ) -> (r: bool)
        requires
            old(self).wf(),
            countable(old(self)@.counters),
            !old(self)@.running.contains_key(task.0),
        ensures
            final(self).wf(),
            r == (transport is Some && !old(self)@.flows.contains_key(h)),
            final(self)@ == if r {
                opened(
                    old(self)@,
                    h,
                    id,
                    Flow {
                        client,
                        destination,
                        refresh: false,
                        deadline,
                        armed: None,
                        client_closing: false,
                        upstream_lease: transport == Some(Transport::Upstream),
                    },
                    task.0,
                    transport == Some(Transport::Resolver),
                )
            } else {
                having_counted(old(self)@, Count::Unadmitted)
            },
    {
        let transport = match transport {
            Some(transport) => transport,
            None => {
                self.count(Count::Unadmitted);
                return false;
            },
        };
        if self.contains(h) {
            self.count(Count::Unadmitted);
            return false;
        }
        let flow = Flow {
            client,
            destination,
            refresh: false,
            deadline,
            armed: None,
            client_closing: false,
            upstream_lease: transport == Transport::Upstream,
        };
        self.admitted(h, id, flow, task, transport == Transport::Resolver);
        true
    }

    /// Sets when a flow is given up, without waking for it yet.
    pub fn set_deadline(&mut self, h: Handle, deadline: Option<u64>)
        requires
            old(self).wf(),
        ensures
            final(self).wf(),
            final(self)@ == if old(self)@.flows.contains_key(h) {
                let held = old(self)@.flows[h];
                EngineState {
                    flows: old(self)@.flows.insert(
                        h,
                        with_record(held, Flow { deadline, ..held.record }),
                    ),
                    ..old(self)@
                }
            } else {
                old(self)@
            },
    {
        let record = match self.flows.get(&h) {
            Some(held) => held.record,
            None => return,
        };
        self.put(h, Flow { deadline, ..record });
    }

    /// Looks at a flow's time again.
    pub fn rearm_index(&mut self, h: Handle)
        requires
            old(self).wf(),
        ensures
            final(self).wf(),
            final(self)@ == reindexed(old(self)@, h),
    {
        self.reindex(h);
    }

    /// Puts a flow's deadline off, if it is still that flow and was not cancelled.
    pub fn rearm(&mut self, h: Handle, id: u64, deadline: Option<u64>)
        requires
            old(self).wf(),
        ensures
            final(self).wf(),
            final(self)@ == rearmed(old(self)@, h, id, deadline),
    {
        if !self.flows.current(&h, id) {
            return;
        }
        let (cancelled, record) = match self.flows.get(&h) {
            Some(held) => (held.cancelled, held.record),
            None => return,
        };
        if cancelled {
            return;
        }
        self.put(h, Flow { deadline, ..record });
        self.reindex(h);
    }

    /// Notes that the stack may have something to do at another time.
    pub fn stack_changed(&mut self)
        requires
            old(self).wf(),
        ensures
            final(self).wf(),
            final(self)@ == (EngineState { stack_stale: true, ..old(self)@ }),
    {
        self.stack_stale = true;
    }

    /// Whether it is to be asked when the stack has something to do.
    pub fn stack_stale(&self) -> (r: bool)
        ensures
            r == self@.stack_stale,
    {
        self.stack_stale
    }

    /// Notes when the stack has something to do.
    pub fn stack_asked(&mut self, stack: Option<u64>)
        requires
            old(self).wf(),
        ensures
            final(self).wf(),
            final(self)@ == (EngineState { stack, stack_stale: false, ..old(self)@ }),
    {
        self.stack = stack;
        self.stack_stale = false;
    }

    /// When the engine wakes: when a flow is armed for, or the stack has something to do and that can go out.
    pub fn next_deadline(&self, accepting: bool) -> (r: Option<u64>)
        requires
            self.wf(),
        ensures
            match r {
                Some(t) => {
                    &&& wakes_at(self@, accepting, t)
                    &&& forall|other: u64| #[trigger] wakes_at(self@, accepting, other) ==> t <= other
                },
                None => forall|other: u64| !#[trigger] wakes_at(self@, accepting, other),
            },
    {
        let idle = self.idle.next_deadline();
        proof {
            if idle is Some {
                let h = choose|h: Handle| #[trigger] self.idle@.contains_key(h) && self.idle@[h].due() == idle->0;
                assert(self@.idle.contains_key(h));
                assert(wakes_at(self@, accepting, idle->0));
            }
            assert forall|other: u64| #[trigger] wakes_at(self@, accepting, other) implies (accepting
                && self@.stack == Some(other)) || (idle is Some && idle->0 <= other) by {
                if !(accepting && self@.stack == Some(other)) {
                    let h = choose|h: Handle| #[trigger] self@.idle.contains_key(h) && self@.idle[h].due == other;
                    assert(self.idle@.contains_key(h));
                    assert(self.idle@.dom().contains(h));
                }
            }
            if accepting && self@.stack is Some {
                assert(wakes_at(self@, accepting, self@.stack->0));
            }
        }
        let stack: Option<u64> = if accepting {
            self.stack
        } else {
            None
        };
        match (stack, idle) {
            (Some(a), Some(b)) => if a < b {
                Some(a)
            } else {
                Some(b)
            },
            (Some(a), None) => Some(a),
            (None, b) => b,
        }
    }

    /// Notes what was reset.
    pub fn reset(&mut self, flows: u64)
        requires
            old(self).wf(),
            old(self)@.counters.reset + flows <= u64::MAX,
        ensures
            final(self).wf(),
            final(self)@ == counting(
                old(self)@,
                Counters {
                    reset: (old(self)@.counters.reset + flows) as u64,
                    ..old(self)@.counters
                },
            ),
    {
        self.counters.reset += flows;
    }

    fn find(&self, h: Handle) -> (r: Option<usize>)
        ensures
            match r {
                Some(i) => i < self.outgoing@.len() && self.outgoing@[i as int] == h && forall|j: int|
                    0 <= j < i ==> self.outgoing@[j] != h,
                None => !self.outgoing@.contains(h),
            },
    {
        let mut i: usize = 0;
        while i < self.outgoing.len()
            invariant
                i <= self.outgoing@.len(),
                forall|j: int| 0 <= j < i ==> self.outgoing@[j] != h,
            decreases self.outgoing@.len() - i,
        {
            if self.outgoing[i] == h {
                return Some(i);
            }
            i += 1;
        }
        None
    }

    /// Gives a flow up for good, if it is still that flow. Its worker's task has ended, and with it whatever
    /// descriptor the flow held.
    pub fn reclaim(&mut self, h: Handle, id: u64) -> (r: bool)
        requires
            old(self).wf(),
            countable(old(self)@.counters),
            old(self)@.flows.contains_key(h) && old(self)@.flows[h].id == id
                ==> old(self)@.running.dom().len() < old(self)@.flows.dom().len()
                && !old(self)@.flows[h].record.upstream_lease,
        ensures
            final(self).wf(),
            r == (old(self)@.flows.contains_key(h) && old(self)@.flows[h].id == id),
            final(self)@ == if r {
                reclaimed(old(self)@, h)
            } else {
                counting(
                    old(self)@,
                    Counters {
                        stale: (old(self)@.counters.stale + 1) as u64,
                        ..old(self)@.counters
                    },
                )
            },
    {
        let ghost before = self@;
        if self.flows.retire(&h, id).is_none() {
            self.counters.stale += 1;
            return false;
        }
        if let Some(i) = self.find(h) {
            proof {
                assert(before.outgoing.index_of(h) == i) by {
                    let k = before.outgoing.index_of(h);
                    assert(before.outgoing.contains(h));
                    assert(before.outgoing[k] == before.outgoing[i as int]);
                }
            }
            self.outgoing.remove(i);
        }
        self.idle.remove(&h);
        self.stack_stale = true;
        self.counters.closed += 1;
        proof {
            lemma_forgotten(before.outgoing, h);
        }
        true
    }

    /// Says how many flows there are, what is asked of the resolver, and what was counted.
    pub fn describe(&self, queries: &str) -> (r: String)
        requires
            self.wf(),
        ensures
            r@ == decimal(self@.flows.dom().len()) + " flows, "@ + queries@ + ", "@ + counters_text(
                self@.counters,
            ),
    {
        let mut out = crate::text::decimal_text(self.flows.len() as u64);
        out.append(" flows, ");
        out.append(queries);
        out.append(", ");
        out.append(self.counters.describe().as_str());
        out
    }
}

/// Whether the engine has woken for a flow.
pub open spec fn woken(s: EngineState, h: Handle, now: u64) -> bool {
    s.idle.contains_key(h) && s.idle[h].due <= now
}

/// Whether a flow is to be given up.
pub open spec fn retires(held: Held<Flow>, now: u64) -> bool {
    !held.cancelled && match held.record.deadline {
        Some(deadline) => deadline <= now,
        None => false,
    }
}

/// A flow that the engine has woken for: it is cancelled where it is to be given up, and else the engine wakes
/// for it again when it will be.
pub open spec fn after_wake(held: Held<Flow>, now: u64) -> Held<Flow> {
    if retires(held, now) {
        Held { id: held.id, cancelled: true, record: Flow { armed: None, ..held.record } }
    } else {
        with_record(held, Flow { armed: due_of(held), ..held.record })
    }
}

/// Whether every flow whose time has come was dealt with, and `given_up` are those that are given up.
pub open spec fn expired_by(
    before: EngineState,
    after: EngineState,
    now: u64,
    given_up: Seq<Handle>,
) -> bool {
    &&& after.flows.dom() == before.flows.dom()
    &&& forall|h: Handle|
        #[trigger] before.flows.contains_key(h) ==> after.flows[h] == if woken(before, h, now) {
            after_wake(before.flows[h], now)
        } else {
            before.flows[h]
        }
    &&& given_up.no_duplicates()
    &&& forall|h: Handle|
        #[trigger] given_up.contains(h) <==> woken(before, h, now) && retires(before.flows[h], now)
    &&& after.counters == Counters {
        expired: (before.counters.expired + given_up.len()) as u64,
        ..before.counters
    }
    &&& indexed(after)
    &&& after.running == before.running
    &&& after.next_identity == before.next_identity
    &&& after.outgoing == before.outgoing
    &&& after.stack == before.stack
    &&& after.stack_stale == (before.stack_stale || given_up.len() > 0)
}

/// Whether a flow is among the rows from `a` up to `b`.
spec fn among(rows: Seq<(Handle, Armed)>, a: int, b: int, h: Handle) -> bool {
    exists|j: int| a <= j < b && (#[trigger] rows[j]).0 == h
}

/// What is still to be dealt with while flows expire: the `i`th row on.
spec fn expiring(
    before: EngineState,
    now: EngineState,
    rows: Seq<(Handle, Armed)>,
    i: int,
    at: u64,
    given_up: Seq<Handle>,
) -> bool {
    &&& now.flows.dom() == before.flows.dom()
    &&& forall|h: Handle|
        #[trigger] before.flows.contains_key(h) ==> {
            if among(rows, 0, i, h) {
                now.flows[h] == after_wake(before.flows[h], at)
            } else {
                now.flows[h] == before.flows[h]
            }
        }
    &&& forall|h: Handle|
        #[trigger] now.idle.contains_key(h) ==> now.flows.contains_key(h) && now.flows[h].record.armed
            == Some(now.idle[h].due)
    &&& forall|h: Handle|
        #[trigger] now.flows.contains_key(h) && now.flows[h].record.armed is Some && !among(
            rows,
            i,
            rows.len() as int,
            h,
        ) ==> now.idle.contains_key(h)
    &&& forall|j: int| i <= j < rows.len() ==> !now.idle.contains_key((#[trigger] rows[j]).0)
    &&& given_up.no_duplicates()
    &&& forall|h: Handle|
        #[trigger] given_up.contains(h) <==> among(rows, 0, i, h) && before.flows.contains_key(h)
            && retires(before.flows[h], at)
    &&& now.counters == before.counters
    &&& now.running == before.running
    &&& now.next_identity == before.next_identity
    &&& now.outgoing == before.outgoing
    &&& now.stack == before.stack
    &&& now.stack_stale == before.stack_stale
}

impl Engine {
    fn wake(&mut self, h: Handle, now: u64) -> (r: bool)
        requires
            old(self).flows.wf(),
            old(self).idle.wf(),
            old(self)@.flows.contains_key(h),
            !old(self)@.idle.contains_key(h),
        ensures
            final(self).flows.wf(),
            final(self).idle.wf(),
            r == retires(old(self)@.flows[h], now),
            final(self)@ == (EngineState {
                flows: old(self)@.flows.insert(h, after_wake(old(self)@.flows[h], now)),
                idle: idle_with(
                    old(self)@.idle,
                    h,
                    after_wake(old(self)@.flows[h], now).record.armed,
                ),
                ..old(self)@
            }),
    {
        let (cancelled, record) = match self.flows.get(&h) {
            Some(held) => (held.cancelled, held.record),
            None => return false,
        };
        let over = match record.deadline {
            Some(deadline) => deadline <= now,
            None => false,
        };
        let retiring = !cancelled && over;
        if retiring {
            self.flows.cancel(h);
        }
        self.reindex(h);
        proof {
            assert(self@.flows =~= old(self)@.flows.insert(h, after_wake(old(self)@.flows[h], now)));
        }
        retiring
    }

    /// Gives up the flows whose time has come. Their sockets are to be aborted.
    #[verifier::rlimit(40)]
    pub fn expire(&mut self, now: u64) -> (r: Vec<Handle>)
        requires
            old(self).wf(),
            old(self)@.counters.expired + old(self)@.idle.dom().len() <= u64::MAX,
        ensures
            final(self).wf(),
            expired_by(old(self)@, final(self)@, now, r@),
    {
        let ghost before = self@;
        let _known: usize = self.idle.len();
        let rows = self.idle.expire(now);
        let mut given_up: Vec<Handle> = Vec::new();
        proof {
            lemma_rows(rows@);
            let gone = before.idle.remove_keys(undue(before.idle, now).dom());
            assert forall|j: int| 0 <= j < rows@.len() implies woken(before, (#[trigger] rows@[j]).0, now) by {
                assert(gone.contains_key(rows@[j].0));
            }
            assert forall|h: Handle| #[trigger] woken(before, h, now) implies among(
                rows@,
                0,
                rows@.len() as int,
                h,
            ) by {
                assert(gone.contains_key(h));
            }
            assert forall|j: int| 0 <= j < rows@.len() implies !self@.idle.contains_key(
                (#[trigger] rows@[j]).0,
            ) by {}
            assert forall|h: Handle|
                #[trigger] self@.flows.contains_key(h) && self@.flows[h].record.armed is Some && !among(
                    rows@,
                    0,
                    rows@.len() as int,
                    h,
                ) implies self@.idle.contains_key(h) by {
                assert(before.flows.contains_key(h));
                assert(before.idle.contains_key(h));
                assert(!woken(before, h, now));
            }
            assert forall|h: Handle| #[trigger] self@.idle.contains_key(h) implies self@.flows.contains_key(h)
                && self@.flows[h].record.armed == Some(self@.idle[h].due) by {
                assert(before.idle.contains_key(h));
            }
            assert(expiring(before, self@, rows@, 0, now, given_up@));
        }
        let mut i: usize = 0;
        while i < rows.len()
            invariant
                i <= rows@.len(),
                self.flows.wf(),
                self.idle.wf(),
                consistent(before),
                given_up@.len() <= i,
                crate::rows::rows_distinct(rows@),
                forall|j: int| 0 <= j < rows@.len() ==> woken(before, (#[trigger] rows@[j]).0, now),
                expiring(before, self@, rows@, i as int, now, given_up@),
            decreases rows@.len() - i,
        {
            let h = rows[i].0;
            let ghost earlier = self@;
            let ghost told = given_up@;
            proof {
                assert(rows@[i as int].0 == h);
                assert(woken(before, rows@[i as int].0, now));
                assert(before.idle.contains_key(h));
                assert(!among(rows@, 0, i as int, h)) by {
                    if among(rows@, 0, i as int, h) {
                        let j = choose|j: int| 0 <= j < i && (#[trigger] rows@[j]).0 == h;
                        assert(rows@[j].0.model() != rows@[i as int].0.model());
                    }
                }
                assert(earlier.flows[h] == before.flows[h]);
            }
            if self.wake(h, now) {
                given_up.push(h);
                proof {
                    assert(!told.contains(h));
                    lemma_pushed(told, h);
                }
            }
            proof {
                lemma_step(before, earlier, self@, rows@, i as int, now, told, given_up@);
            }
            i += 1;
        }
        proof {
            assert(rows@.len() <= before.idle.dom().len());
            assert forall|h: Handle|
                #[trigger] self@.flows.contains_key(h)
                    && self@.flows[h].record.armed is Some implies self@.idle.contains_key(h) by {
                assert(!among(rows@, i as int, rows@.len() as int, h));
            }
            assert forall|h: Handle| #[trigger] self@.outgoing.contains(h) <==> self@.flows.contains_key(
                h,
            ) by {
                assert(before.outgoing.contains(h) <==> before.flows.contains_key(h));
                assert(self@.flows.dom().contains(h) == before.flows.dom().contains(h));
            }
        }
        let ghost settled = self@;
        proof {
            assert(indexed(settled));
            assert(consistent(settled));
        }
        self.counters.expired += given_up.len() as u64;
        if given_up.len() > 0 {
            self.stack_stale = true;
        }
        proof {
            assert(self@ =~= EngineState {
                counters: self@.counters,
                stack_stale: self@.stack_stale,
                ..settled
            });
            assert(consistent(self@));
            assert forall|h: Handle| #[trigger] before.flows.contains_key(h) implies self@.flows[h] == if woken(
                before,
                h,
                now,
            ) {
                after_wake(before.flows[h], now)
            } else {
                before.flows[h]
            } by {
                if among(rows@, 0, rows@.len() as int, h) {
                    let j = choose|j: int| 0 <= j < rows@.len() && (#[trigger] rows@[j]).0 == h;
                    assert(woken(before, rows@[j].0, now));
                }
            }
            assert forall|h: Handle| #[trigger] given_up@.contains(h) <==> woken(before, h, now) && retires(
                before.flows[h],
                now,
            ) by {
                if woken(before, h, now) {
                    assert(before.idle.contains_key(h));
                    assert(before.flows.contains_key(h));
                }
                if given_up@.contains(h) {
                    let j = choose|j: int| 0 <= j < rows@.len() && (#[trigger] rows@[j]).0 == h;
                    assert(woken(before, rows@[j].0, now));
                }
            }
        }
        given_up
    }
}

proof fn lemma_step(
    before: EngineState,
    earlier: EngineState,
    later: EngineState,
    rows: Seq<(Handle, Armed)>,
    i: int,
    at: u64,
    told: Seq<Handle>,
    given_up: Seq<Handle>,
)
    requires
        0 <= i < rows.len(),
        crate::rows::rows_distinct(rows),
        before.flows.contains_key(rows[i].0),
        expiring(before, earlier, rows, i, at, told),
        earlier.flows[rows[i].0] == before.flows[rows[i].0],
        later == (EngineState {
            flows: earlier.flows.insert(rows[i].0, after_wake(earlier.flows[rows[i].0], at)),
            idle: idle_with(
                earlier.idle,
                rows[i].0,
                after_wake(earlier.flows[rows[i].0], at).record.armed,
            ),
            ..earlier
        }),
        given_up.no_duplicates(),
        retires(before.flows[rows[i].0], at) ==> forall|o: Handle|
            #[trigger] given_up.contains(o) <==> told.contains(o) || o == rows[i].0,
        !retires(before.flows[rows[i].0], at) ==> given_up == told,
    ensures
        expiring(before, later, rows, i + 1, at, given_up),
{
    let h = rows[i].0;
    assert(later.flows.dom() =~= before.flows.dom());
    assert forall|o: Handle| #[trigger] among(rows, 0, i + 1, o) <==> among(rows, 0, i, o) || o == h by {
        if among(rows, 0, i, o) {
            let j = choose|j: int| 0 <= j < i && (#[trigger] rows[j]).0 == o;
            assert(rows[j].0 == o);
        }
        if among(rows, 0, i + 1, o) {
            let j = choose|j: int| 0 <= j < i + 1 && (#[trigger] rows[j]).0 == o;
            if j < i {
                assert(rows[j].0 == o);
            }
        }
        if o == h {
            assert(rows[i].0 == o);
        }
    }
    assert forall|j: int| i + 1 <= j < rows.len() implies (#[trigger] rows[j]).0 != h by {
        assert(rows[i].0.model() != rows[j].0.model());
    }
    assert forall|o: Handle|
        #[trigger] later.flows.contains_key(o) && later.flows[o].record.armed is Some && !among(
            rows,
            i + 1,
            rows.len() as int,
            o,
        ) implies later.idle.contains_key(o) by {
        if o != h {
            assert(earlier.flows.contains_key(o));
            if among(rows, i, rows.len() as int, o) {
                let j = choose|j: int| i <= j < rows.len() && (#[trigger] rows[j]).0 == o;
                assert(j > i);
                assert(rows[j].0 == o);
            }
        }
    }
}

/// The flows among the first `n` of an order that were not cancelled.
pub open spec fn uncancelled(flows: Map<Handle, Held<Flow>>, order: Seq<Handle>, n: int) -> Seq<Handle>
    decreases n,
{
    if n <= 0 {
        Seq::empty()
    } else {
        let before = uncancelled(flows, order, n - 1);
        if flows[order[n - 1]].cancelled {
            before
        } else {
            before.push(order[n - 1])
        }
    }
}

/// Whether only the client's side is left of a flow.
pub open spec fn retained(s: EngineState, h: Handle) -> bool {
    s.flows.contains_key(h) && s.flows[h].record.client_closing
}

/// What a shutdown waits for.
#[derive(Clone, Copy, Debug, PartialEq, Eq, Structural)]
pub enum Draining {
    /// Nothing.
    Done,
    /// A flow is to be given up for good.
    Reclaim(Handle, u64),
    /// A worker has to end.
    Join,
}

/// An engine after flows were cancelled, one after the other.
pub open spec fn torn_down(s: EngineState, torn: Seq<Handle>) -> EngineState
    decreases torn.len(),
{
    if torn.len() == 0 {
        s
    } else {
        let earlier = torn_down(s, torn.drop_last());
        let h = torn.last();
        if earlier.flows.contains_key(h) {
            EngineState {
                flows: earlier.flows.insert(h, shut(earlier.flows[h])),
                idle: earlier.idle.remove(h),
                ..earlier
            }
        } else {
            earlier
        }
    }
}

/// A flow whose socket ended under it is cancelled and woken for no more, and every other flow stays as it was.
pub proof fn law_a_torn_flow_is_cancelled(s: EngineState, torn: Seq<Handle>, h: Handle)
    requires
        s.flows.contains_key(h),
    ensures
        torn_down(s, torn).flows.dom() == s.flows.dom(),
        torn.contains(h) ==> torn_down(s, torn).flows[h] == shut(s.flows[h])
            && !torn_down(s, torn).idle.contains_key(h),
        !torn.contains(h) ==> torn_down(s, torn).flows[h] == s.flows[h] && torn_down(s, torn).idle.contains_key(h)
            == s.idle.contains_key(h),
    decreases torn.len(),
{
    if torn.len() > 0 {
        let fewer = torn.drop_last();
        law_a_torn_flow_is_cancelled(s, fewer, h);
        assert(torn_down(s, torn).flows.dom() =~= s.flows.dom());
        if torn.contains(h) && torn.last() != h {
            let j = choose|j: int| 0 <= j < torn.len() && torn[j] == h;
            assert(fewer[j] == h);
        }
        if fewer.contains(h) {
            let j = choose|j: int| 0 <= j < fewer.len() && fewer[j] == h;
            assert(torn[j] == h);
        }
        assert(torn[torn.len() - 1] == torn.last());
    }
}

/// A flow that was cancelled and is woken for no more.
pub open spec fn shut(held: Held<Flow>) -> Held<Flow> {
    Held { id: held.id, cancelled: true, record: Flow { armed: None, ..held.record } }
}

/// An engine that was shut down: every flow was cancelled, and nothing is woken for.
pub open spec fn shut_down(s: EngineState) -> EngineState {
    EngineState {
        flows: s.flows.map_values(|held: Held<Flow>| shut(held)),
        idle: Map::empty(),
        ..s
    }
}

/// A flow whose worker ended: it holds no descriptor any more.
pub open spec fn given_back(held: Held<Flow>, client_closing: bool) -> Held<Flow> {
    with_record(held, Flow { client_closing, upstream_lease: false, ..held.record })
}

/// What became of a flow whose worker ended.
#[derive(Clone, Copy, Debug, PartialEq, Eq, Structural)]
pub enum Closing {
    /// It is another flow by now.
    Stale,
    /// Its client's side is left to end by itself. Nothing more is sent upstream.
    Retained,
    /// Its socket is to be reset.
    Reset,
    /// Its socket is as it is.
    Settle,
}

/// What moved between a flow's two sides.
#[derive(Clone, Copy, Debug, PartialEq, Eq, Structural)]
pub struct Crossing {
    pub moved: bool,
    pub to_client: usize,
    pub to_upstream: usize,
    pub stranded: bool,
    pub delivered: bool,
}

/// An engine after something moved between a flow's two sides.
pub open spec fn crossed(s: EngineState, h: Handle, crossing: Option<Crossing>) -> EngineState {
    let c = s.counters;
    match crossing {
        None => counting(s, Counters { stale: (c.stale + 1) as u64, ..c }),
        Some(crossing) => {
            let counted = EngineState {
                counters: Counters {
                    to_client: (c.to_client + crossing.to_client) as u64,
                    to_upstream: (c.to_upstream + crossing.to_upstream) as u64,
                    stale: if crossing.stranded { (c.stale + 1) as u64 } else { c.stale },
                    ..c
                },
                stack_stale: s.stack_stale || crossing.moved,
                ..s
            };
            if s.flows.contains_key(h) {
                let held = s.flows[h];
                EngineState {
                    flows: s.flows.insert(
                        h,
                        with_record(
                            held,
                            Flow { refresh: held.record.refresh || crossing.delivered, ..held.record },
                        ),
                    ),
                    ..counted
                }
            } else {
                counted
            }
        },
    }
}

/// The flows among the first `n` of an order in which something moved, with their identities.
pub open spec fn refreshed(flows: Map<Handle, Held<Flow>>, order: Seq<Handle>, n: int) -> Seq<(Handle, u64)>
    decreases n,
{
    if n <= 0 {
        Seq::empty()
    } else {
        let before = refreshed(flows, order, n - 1);
        let held = flows[order[n - 1]];
        if held.record.refresh {
            before.push((order[n - 1], held.id))
        } else {
            before
        }
    }
}

/// A flow in which nothing moved since.
pub open spec fn rested(held: Held<Flow>) -> Held<Flow> {
    with_record(held, Flow { refresh: false, ..held.record })
}

/// Whether the first `n` of an order were made `f` of, and the rest is as it was.
spec fn partly(
    before: Map<Handle, Held<Flow>>,
    now: Map<Handle, Held<Flow>>,
    order: Seq<Handle>,
    n: int,
    f: spec_fn(Held<Flow>) -> Held<Flow>,
) -> bool {
    &&& now.dom() == before.dom()
    &&& forall|i: int| 0 <= i < n ==> now[#[trigger] order[i]] == f(before[order[i]])
    &&& forall|i: int| n <= i < order.len() ==> now[#[trigger] order[i]] == before[order[i]]
}

proof fn lemma_all(
    before: Map<Handle, Held<Flow>>,
    now: Map<Handle, Held<Flow>>,
    order: Seq<Handle>,
    f: spec_fn(Held<Flow>) -> Held<Flow>,
)
    requires
        partly(before, now, order, order.len() as int, f),
        forall|h: Handle| #[trigger] order.contains(h) <==> before.contains_key(h),
    ensures
        now == before.map_values(f),
{
    assert forall|h: Handle| before.contains_key(h) implies now[h] == f(before[h]) by {
        assert(order.contains(h));
        let i = choose|i: int| 0 <= i < order.len() && order[i] == h;
        assert(now[order[i]] == f(before[order[i]]));
    }
    assert(now =~= before.map_values(f));
}

/// What can be counted by itself.
#[derive(Clone, Copy, Debug, PartialEq, Eq, Structural)]
pub enum Count {
    Stale,
    Denied,
    Unadmitted,
    Resolved,
    AnsweredHere,
    Unsettled,
}

/// Whether one thing can still be counted.
pub open spec fn can_count(c: Counters, what: Count) -> bool {
    match what {
        Count::Stale => c.stale < u64::MAX,
        Count::Denied => c.denied < u64::MAX,
        Count::Unadmitted => c.unadmitted < u64::MAX,
        Count::Resolved => c.resolved < u64::MAX,
        Count::AnsweredHere => c.answered_here < u64::MAX,
        Count::Unsettled => c.unsettled < u64::MAX,
    }
}

/// Counters after one thing was counted.
pub open spec fn counted(c: Counters, what: Count) -> Counters {
    match what {
        Count::Stale => Counters { stale: (c.stale + 1) as u64, ..c },
        Count::Denied => Counters { denied: (c.denied + 1) as u64, ..c },
        Count::Unadmitted => Counters { unadmitted: (c.unadmitted + 1) as u64, ..c },
        Count::Resolved => Counters { resolved: (c.resolved + 1) as u64, ..c },
        Count::AnsweredHere => Counters { answered_here: (c.answered_here + 1) as u64, ..c },
        Count::Unsettled => Counters { unsettled: (c.unsettled + 1) as u64, ..c },
    }
}

/// An engine after one thing was counted.
pub open spec fn having_counted(s: EngineState, what: Count) -> EngineState {
    counting(s, counted(s.counters, what))
}

impl Engine {
    /// Whether every counter can count one more.
    pub fn can_count(&self) -> (r: bool)
        ensures
            r == countable(self@.counters),
    {
        self.counters.can_count()
    }

    /// What was counted.
    pub fn counters(&self) -> (r: Counters)
        ensures
            r == self@.counters,
    {
        self.counters
    }

    /// How many tasks still run.
    pub fn running(&self) -> (r: usize)
        requires
            self.wf(),
        ensures
            r == self@.running.dom().len(),
    {
        self.flows.running()
    }

    /// Counts one thing.
    pub fn count(&mut self, what: Count)
        requires
            old(self).wf(),
            can_count(old(self)@.counters, what),
        ensures
            final(self).wf(),
            final(self)@ == having_counted(old(self)@, what),
    {
        match what {
            Count::Stale => self.counters.stale += 1,
            Count::Denied => self.counters.denied += 1,
            Count::Unadmitted => self.counters.unadmitted += 1,
            Count::Resolved => self.counters.resolved += 1,
            Count::AnsweredHere => self.counters.answered_here += 1,
            Count::Unsettled => self.counters.unsettled += 1,
        }
    }

    /// Whether a flow is still that flow.
    pub fn current(&self, h: Handle, id: u64) -> (r: bool)
        requires
            self.wf(),
        ensures
            r == (self@.flows.contains_key(h) && self@.flows[h].id == id),
    {
        self.flows.current(&h, id)
    }

    /// Whether there is a flow.
    pub fn contains(&self, h: Handle) -> (r: bool)
        requires
            self.wf(),
        ensures
            r == self@.flows.contains_key(h),
    {
        self.flows.contains(&h)
    }

    /// A flow's row.
    pub fn get(&self, h: Handle) -> (r: Option<&Held<Flow>>)
        requires
            self.wf(),
        ensures
            match r {
                Some(held) => self@.flows.contains_key(h) && *held == self@.flows[h],
                None => !self@.flows.contains_key(h),
            },
    {
        self.flows.get(&h)
    }

    /// Notes that a task ended, and tells whose it was.
    pub fn finished(&mut self, task: TaskId) -> (r: Option<(Handle, u64)>)
        requires
            old(self).wf(),
        ensures
            final(self).wf(),
            final(self)@ == (EngineState { running: old(self)@.running.remove(task.0), ..old(self)@ }),
            match r {
                Some(whose) => old(self)@.running.contains_key(task.0) && whose == old(self)@.running[task.0],
                None => !old(self)@.running.contains_key(task.0),
            },
    {
        self.flows.finished(task)
    }

    /// How many flows there are.
    pub fn len(&self) -> (r: usize)
        requires
            self.wf(),
        ensures
            r == self@.flows.dom().len(),
    {
        self.flows.len()
    }

    /// Cancels every flow. The sockets of those that were not cancelled before are to be aborted, in turn.
    pub fn shutdown(&mut self) -> (r: Vec<Handle>)
        requires
            old(self).wf(),
        ensures
            final(self).wf(),
            final(self)@ == shut_down(old(self)@),
            r@ == uncancelled(
                old(self)@.flows,
                old(self)@.outgoing,
                old(self)@.outgoing.len() as int,
            ),
    {
        let ghost before = self@;
        let ghost f = |held: Held<Flow>| shut(held);
        let mut abort: Vec<Handle> = Vec::new();
        let mut i: usize = 0;
        while i < self.outgoing.len()
            invariant
                i <= before.outgoing.len(),
                self.flows.wf(),
                self.idle.wf(),
                consistent(before),
                f == (|held: Held<Flow>| shut(held)),
                partly(before.flows, self@.flows, before.outgoing, i as int, f),
                self@ == (EngineState { flows: self@.flows, ..before }),
                abort@ == uncancelled(before.flows, before.outgoing, i as int),
            decreases before.outgoing.len() - i,
        {
            let h = self.outgoing[i];
            let ghost earlier = self@.flows;
            proof {
                assert(before.outgoing[i as int] == h);
                assert(before.outgoing.contains(h));
                assert(earlier[before.outgoing[i as int]] == before.flows[h]);
                assert(self@.flows.dom().contains(h));
            }
            let (cancelled, record) = match self.flows.get(&h) {
                Some(held) => (held.cancelled, held.record),
                None => return abort,
            };
            if !cancelled {
                self.flows.cancel(h);
                abort.push(h);
            }
            self.put(h, Flow { armed: None, ..record });
            proof {
                assert(self@.flows =~= earlier.insert(h, shut(before.flows[h])));
                assert(self@.flows.dom() =~= before.flows.dom());
                assert forall|j: int| 0 <= j < before.outgoing.len() && j != i implies before.outgoing[j] != h by {}
            }
            i += 1;
        }
        self.idle = Rows::new();
        proof {
            lemma_all(before.flows, self@.flows, before.outgoing, f);
            assert(self@ =~= shut_down(before));
            assert forall|h: Handle| #[trigger] self@.outgoing.contains(h) <==> self@.flows.contains_key(h) by {
                assert(before.outgoing.contains(h) <==> before.flows.contains_key(h));
            }
        }
        abort
    }

    /// Takes the end of a flow's worker: whether it leaves the client's side to end by itself, and whether it was
    /// as it was to be. Tells too whether a descriptor that was granted to the flow is to be given back.
    pub fn close(&mut self, h: Handle, id: u64, retains: bool, expected: bool) -> (r: (Closing, bool))
        requires
            old(self).wf(),
            countable(old(self)@.counters),
        ensures
            final(self).wf(),
            ({
                let s = old(self)@;
                let c = s.counters;
                let current = s.flows.contains_key(h) && s.flows[h].id == id;
                &&& r.0 == if !current {
                    Closing::Stale
                } else if retains {
                    Closing::Retained
                } else if expected {
                    Closing::Settle
                } else {
                    Closing::Reset
                }
                &&& r.1 == (current && s.flows[h].record.upstream_lease)
                &&& final(self)@ == match r.0 {
                    Closing::Stale => counting(s, Counters { stale: (c.stale + 1) as u64, ..c }),
                    Closing::Retained => EngineState {
                        flows: s.flows.insert(h, given_back(s.flows[h], true)),
                        counters: Counters { client_closing: (c.client_closing + 1) as u64, ..c },
                        ..s
                    },
                    _ => EngineState {
                        flows: s.flows.insert(
                            h,
                            given_back(s.flows[h], s.flows[h].record.client_closing),
                        ),
                        ..s
                    },
                }
            }),
    {
        if !self.flows.current(&h, id) {
            self.counters.stale += 1;
            return (Closing::Stale, false);
        }
        let record = match self.flows.get(&h) {
            Some(held) => held.record,
            None => return (Closing::Stale, false),
        };
        if retains {
            self.put(h, Flow { client_closing: true, upstream_lease: false, ..record });
            self.counters.client_closing += 1;
            return (Closing::Retained, record.upstream_lease);
        }
        self.put(h, Flow { upstream_lease: false, ..record });
        if expected {
            (Closing::Settle, record.upstream_lease)
        } else {
            (Closing::Reset, record.upstream_lease)
        }
    }

    /// Gives a flow up for good, unless its socket still owes its client a reset. Says whether it did.
    pub fn settle(&mut self, h: Handle, id: u64, owes_reset: bool) -> (r: bool)
        requires
            old(self).wf(),
            countable(old(self)@.counters),
            old(self)@.flows.contains_key(h),
            old(self)@.flows[h].id == id,
            old(self)@.running.dom().len() < old(self)@.flows.dom().len(),
            !old(self)@.flows[h].record.upstream_lease,
        ensures
            final(self).wf(),
            r == !owes_reset,
            ({
                let s = old(self)@;
                final(self)@ == if owes_reset {
                    EngineState {
                        flows: s.flows.insert(
                            h,
                            with_record(
                                s.flows[h],
                                Flow { client_closing: true, ..s.flows[h].record },
                            ),
                        ),
                        ..s
                    }
                } else {
                    reclaimed(s, h)
                }
            }),
    {
        if owes_reset {
            let record = match self.flows.get(&h) {
                Some(held) => held.record,
                None => return false,
            };
            self.put(h, Flow { client_closing: true, ..record });
            return false;
        }
        self.reclaim(h, id)
    }

    /// The first of the sockets that are closed and owe no reset whose flow has only its client's side left.
    pub fn next_client_closed(&self, over: &Vec<Handle>) -> (r: Option<(Handle, u64)>)
        requires
            self.wf(),
        ensures
            match r {
                Some((h, id)) => exists|i: int|
                    0 <= i < over@.len() && #[trigger] over@[i] == h && retained(self@, h) && self@.flows[h].id == id
                        && forall|j: int| 0 <= j < i ==> !retained(self@, #[trigger] over@[j]),
                None => forall|j: int| 0 <= j < over@.len() ==> !retained(self@, #[trigger] over@[j]),
            },
    {
        let mut i: usize = 0;
        while i < over.len()
            invariant
                i <= over@.len(),
                self.wf(),
                forall|j: int| 0 <= j < i ==> !retained(self@, #[trigger] over@[j]),
            decreases over@.len() - i,
        {
            let h = over[i];
            if let Some(held) = self.flows.get(&h) {
                if held.record.client_closing {
                    assert(over@[i as int] == h);
                    return Some((h, held.id));
                }
            }
            i += 1;
        }
        None
    }

    /// What a shutdown waits for: flows of which only the client's side is left go first, and the workers of the
    /// others have to end.
    pub fn draining(&self) -> (r: Draining)
        requires
            self.wf(),
        ensures
            match r {
                Draining::Done => self@.flows.dom().len() == 0,
                Draining::Reclaim(h, id) => retained(self@, h) && self@.flows[h].id == id,
                Draining::Join => self@.flows.dom().len() > 0 && forall|h: Handle| !#[trigger] retained(self@, h),
            },
    {
        if self.flows.len() == 0 {
            return Draining::Done;
        }
        match self.next_client_closed(&self.outgoing) {
            Some((h, id)) => Draining::Reclaim(h, id),
            None => {
                proof {
                    assert forall|h: Handle| !#[trigger] retained(self@, h) by {
                        if self@.flows.contains_key(h) {
                            assert(self@.outgoing.contains(h));
                            let j = choose|j: int| 0 <= j < self@.outgoing.len() && self@.outgoing[j] == h;
                            assert(!retained(self@, self.outgoing@[j]));
                        }
                    }
                }
                Draining::Join
            },
        }
    }

    /// Cancels the flows whose sockets ended under them: the engine wakes for them no more.
    pub fn reclaim_closed(&mut self, torn: &Vec<Handle>)
        requires
            old(self).wf(),
        ensures
            final(self).wf(),
            final(self)@ == torn_down(old(self)@, torn@),
    {
        let ghost before = self@;
        let mut i: usize = 0;
        while i < torn.len()
            invariant
                i <= torn@.len(),
                self.wf(),
                self@ == torn_down(before, torn@.take(i as int)),
            decreases torn@.len() - i,
        {
            let h = torn[i];
            if self.flows.contains(&h) {
                self.flows.cancel(h);
                self.reindex(h);
            }
            proof {
                let next = torn@.take(i + 1);
                assert(next.drop_last() =~= torn@.take(i as int));
                assert(next.last() == h);
            }
            i += 1;
        }
        proof {
            assert(torn@.take(torn@.len() as int) =~= torn@);
        }
    }

    /// Notes what moved between a flow's two sides. Says whether anything did.
    pub fn cross(&mut self, h: Handle, crossing: Option<Crossing>) -> (r: bool)
        requires
            old(self).wf(),
            countable(old(self)@.counters),
            crossing matches Some(crossing) ==> old(self)@.counters.to_client + crossing.to_client <= u64::MAX
                && old(self)@.counters.to_upstream + crossing.to_upstream <= u64::MAX,
        ensures
            final(self).wf(),
            r == match crossing {
                Some(crossing) => crossing.moved,
                None => false,
            },
            final(self)@ == crossed(old(self)@, h, crossing),
    {
        let crossing = match crossing {
            Some(crossing) => crossing,
            None => {
                self.counters.stale += 1;
                return false;
            },
        };
        if crossing.moved {
            self.stack_stale = true;
        }
        self.counters.to_client += crossing.to_client as u64;
        self.counters.to_upstream += crossing.to_upstream as u64;
        if crossing.stranded {
            self.counters.stale += 1;
        }
        let record = match self.flows.get(&h) {
            Some(held) => held.record,
            None => return crossing.moved,
        };
        self.put(h, Flow { refresh: record.refresh || crossing.delivered, ..record });
        crossing.moved
    }

    /// The flows in which something moved, in turn, so that their deadlines can be put off. While nothing is taken
    /// they are left.
    pub fn traffic(&mut self, admitting: bool) -> (r: Vec<(Handle, u64)>)
        requires
            old(self).wf(),
        ensures
            final(self).wf(),
            final(self)@ == (EngineState {
                flows: old(self)@.flows.map_values(|held: Held<Flow>| rested(held)),
                ..old(self)@
            }),
            r@ == if admitting {
                refreshed(old(self)@.flows, old(self)@.outgoing, old(self)@.outgoing.len() as int)
            } else {
                Seq::empty()
            },
    {
        let ghost before = self@;
        let ghost f = |held: Held<Flow>| rested(held);
        let mut moved: Vec<(Handle, u64)> = Vec::new();
        let mut i: usize = 0;
        while i < self.outgoing.len()
            invariant
                i <= before.outgoing.len(),
                self.flows.wf(),
                self.idle.wf(),
                consistent(before),
                f == (|held: Held<Flow>| rested(held)),
                partly(before.flows, self@.flows, before.outgoing, i as int, f),
                self@ == (EngineState { flows: self@.flows, ..before }),
                moved@ == if admitting {
                    refreshed(before.flows, before.outgoing, i as int)
                } else {
                    Seq::empty()
                },
            decreases before.outgoing.len() - i,
        {
            let h = self.outgoing[i];
            let ghost earlier = self@.flows;
            proof {
                assert(before.outgoing[i as int] == h);
                assert(before.outgoing.contains(h));
                assert(earlier[before.outgoing[i as int]] == before.flows[h]);
                assert(self@.flows.dom().contains(h));
            }
            let (id, record) = match self.flows.get(&h) {
                Some(held) => (held.id, held.record),
                None => return moved,
            };
            if record.refresh && admitting {
                moved.push((h, id));
            }
            self.put(h, Flow { refresh: false, ..record });
            proof {
                assert(self@.flows =~= earlier.insert(h, rested(before.flows[h])));
                assert(self@.flows.dom() =~= before.flows.dom());
                assert forall|j: int| 0 <= j < before.outgoing.len() && j != i implies before.outgoing[j] != h by {}
            }
            i += 1;
        }
        proof {
            lemma_all(before.flows, self@.flows, before.outgoing, f);
            assert forall|h: Handle| #[trigger] self@.outgoing.contains(h) <==> self@.flows.contains_key(h) by {
                assert(before.outgoing.contains(h) <==> before.flows.contains_key(h));
            }
            assert forall|h: Handle| #[trigger] self@.flows.contains_key(h)
                && self@.flows[h].record.armed is Some implies self@.idle.contains_key(h) by {
                assert(before.flows.contains_key(h));
            }
            assert forall|h: Handle| #[trigger] self@.idle.contains_key(h) implies self@.flows.contains_key(h)
                && self@.flows[h].record.armed == Some(self@.idle[h].due) by {
                assert(before.idle.contains_key(h));
                assert(before.flows.contains_key(h));
            }
        }
        moved
    }
}

/// Whether the engine wakes at a time.
pub open spec fn wakes_at(s: EngineState, accepting: bool, t: u64) -> bool {
    ||| accepting && s.stack == Some(t)
    ||| exists|h: Handle| #[trigger] s.idle.contains_key(h) && s.idle[h].due == t
}

/// A flow that is opened is there under its handle with its own identity, not given up, with its record as it was made.
/// It is the last in the order, its task is noted for it, and it is waited for until its deadline where it has one. It
/// is counted as opened, and as resolved exactly where the resolver is its other end. No other flow changes.
pub proof fn law_an_opened_flow_is_in_place(
    s: EngineState,
    h: Handle,
    id: u64,
    flow: Flow,
    task: u64,
    resolver: bool,
    other: Handle,
)
    requires
        countable(s.counters),
    ensures
        ({
            let after = opened(s, h, id, flow, task, resolver);
            &&& after.flows.contains_key(h)
            &&& after.flows[h].id == id
            &&& !after.flows[h].cancelled
            &&& after.flows[h].record == (Flow { armed: flow.deadline, ..flow })
            &&& after.running.contains_key(task)
            &&& after.running[task] == (h, id)
            &&& after.outgoing.len() == s.outgoing.len() + 1
            &&& after.outgoing.last() == h
            &&& after.outgoing.subrange(0, s.outgoing.len() as int) == s.outgoing
            &&& after.counters.opened == s.counters.opened + 1
            &&& resolver ==> after.counters.resolved == s.counters.resolved + 1
            &&& !resolver ==> after.counters.resolved == s.counters.resolved
            &&& after.stack_stale
            &&& flow.deadline is Some ==> after.idle.contains_key(h) && after.idle[h].due == flow.deadline->0
            &&& flow.deadline is None ==> !after.idle.contains_key(h)
            &&& other != h ==> {
                &&& after.flows.contains_key(other) == s.flows.contains_key(other)
                &&& s.flows.contains_key(other) ==> after.flows[other] == s.flows[other]
                &&& after.idle.contains_key(other) == s.idle.contains_key(other)
            }
        }),
{
    let after = opened(s, h, id, flow, task, resolver);
    assert(after.outgoing.subrange(0, s.outgoing.len() as int) =~= s.outgoing);
}

/// A deadline is set for the very flow that it is for: it counts from then on, and nothing else of the flow changes.
/// One for a flow that is another by now, or given up, changes nothing at all.
pub proof fn law_a_deadline_is_for_its_own_flow(
    s: EngineState,
    h: Handle,
    id: u64,
    deadline: Option<u64>,
    other: Handle,
)
    ensures
        ({
            let after = rearmed(s, h, id, deadline);
            let current = s.flows.contains_key(h) && s.flows[h].id == id && !s.flows[h].cancelled;
            &&& !current ==> after == s
            &&& current ==> {
                &&& after.flows.contains_key(h)
                &&& after.flows[h].id == id
                &&& !after.flows[h].cancelled
                &&& after.flows[h].record == (Flow { deadline, armed: deadline, ..s.flows[h].record })
                &&& deadline is Some ==> after.idle.contains_key(h) && after.idle[h].due == deadline->0
                &&& deadline is None ==> !after.idle.contains_key(h)
                &&& other != h && s.flows.contains_key(other) ==> after.flows[other] == s.flows[other]
                &&& other != h ==> after.idle.contains_key(other) == s.idle.contains_key(other)
                &&& after.outgoing == s.outgoing
                &&& after.counters == s.counters
                &&& after.running == s.running
            }
        }),
{
}

/// Indexing a flow anew has it waited for until its deadline, and not at all where it has none or is given up.
pub proof fn law_a_flow_given_up_is_waited_for_no_more(s: EngineState, h: Handle)
    requires
        s.flows.contains_key(h),
    ensures
        ({
            let after = reindexed(s, h);
            let due = if s.flows[h].cancelled {
                None
            } else {
                s.flows[h].record.deadline
            };
            &&& after.flows.dom() == s.flows.dom()
            &&& after.flows[h].record == (Flow { armed: due, ..s.flows[h].record })
            &&& after.flows[h].cancelled == s.flows[h].cancelled
            &&& after.flows[h].id == s.flows[h].id
            &&& after.idle.contains_key(h) <==> due is Some
            &&& due is Some ==> after.idle[h].due == due->0
        }),
{
    assert(reindexed(s, h).flows.dom() =~= s.flows.dom());
}

/// A flow that is reclaimed is gone: from the flows, from those that are waited for, and from the order, whose other
/// flows stay in their order. It is counted as closed.
pub proof fn law_a_reclaimed_flow_is_gone(s: EngineState, h: Handle, other: Handle)
    requires
        countable(s.counters),
        s.outgoing.no_duplicates(),
    ensures
        ({
            let after = reclaimed(s, h);
            &&& !after.flows.contains_key(h)
            &&& !after.idle.contains_key(h)
            &&& !after.outgoing.contains(h)
            &&& s.outgoing.contains(h) ==> after.outgoing.len() == s.outgoing.len() - 1
            &&& after.counters.closed == s.counters.closed + 1
            &&& after.counters.opened == s.counters.opened
            &&& after.counters.reset == s.counters.reset
            &&& after.stack_stale
            &&& after.running == s.running
            &&& other != h ==> {
                &&& after.flows.contains_key(other) == s.flows.contains_key(other)
                &&& s.flows.contains_key(other) ==> after.flows[other] == s.flows[other]
                &&& after.outgoing.contains(other) == s.outgoing.contains(other)
                &&& after.idle.contains_key(other) == s.idle.contains_key(other)
            }
        }),
{
    let order = s.outgoing;
    let after = forgotten(order, h);
    if order.contains(h) {
        let i = order.index_of(h);
        assert(order[i] == h);
        assert forall|x: Handle| #[trigger] after.contains(x) <==> order.contains(x) && x != h by {
            if after.contains(x) {
                let k = after.index_of(x);
                if k < i {
                    assert(order[k] == x);
                } else {
                    assert(order[k + 1] == x);
                }
            }
            if order.contains(x) && x != h {
                let k = order.index_of(x);
                if k < i {
                    assert(after[k] == x);
                } else {
                    assert(after[k - 1] == x);
                }
            }
        }
        assert(after.contains(other) <==> order.contains(other) && other != h);
        assert(after.contains(h) <==> order.contains(h) && h != h);
    }
}

/// A flow is given up when its deadline comes, and no sooner: it is cancelled, waited for no more, and counted. A flow
/// whose deadline was put off since is waited for until that, and every other flow stays as it is.
pub proof fn law_a_flow_is_given_up_at_its_deadline(
    before: EngineState,
    after: EngineState,
    now: u64,
    given_up: Seq<Handle>,
    h: Handle,
)
    requires
        consistent(before),
        expired_by(before, after, now, given_up),
        before.flows.contains_key(h),
        before.counters.expired + given_up.len() <= u64::MAX,
    ensures
        ({
            let flow = before.flows[h];
            let late = !flow.cancelled && flow.record.deadline is Some && flow.record.deadline->0 <= now;
            let looked = flow.record.armed is Some && flow.record.armed->0 <= now;
            &&& given_up.contains(h) <==> late && looked
            &&& late && looked ==> {
                &&& after.flows[h].cancelled
                &&& after.flows[h].id == flow.id
                &&& after.flows[h].record == (Flow { armed: None, ..flow.record })
                &&& !after.idle.contains_key(h)
            }
            &&& !late && looked ==> {
                &&& after.flows[h].cancelled == flow.cancelled
                &&& after.flows[h].record.deadline == flow.record.deadline
                &&& after.flows[h].record.armed == if flow.cancelled {
                    None
                } else {
                    flow.record.deadline
                }
            }
            &&& !looked ==> after.flows[h] == flow
            &&& after.counters.expired == before.counters.expired + given_up.len()
            &&& given_up.len() > 0 ==> after.stack_stale
            &&& after.outgoing == before.outgoing
        }),
{
    assert(woken(before, h, now) <==> before.flows[h].record.armed is Some && before.flows[h].record.armed->0 <= now);
    assert(after.flows[h] == if woken(before, h, now) {
        after_wake(before.flows[h], now)
    } else {
        before.flows[h]
    });
    if given_up.contains(h) {
        assert(after.flows[h].record.armed is None);
        assert(after.flows.contains_key(h));
        if after.idle.contains_key(h) {
            assert(after.flows[h].record.armed == Some(after.idle[h].due));
        }
    }
}

/// Giving every flow up leaves all of them there and none waited for. Those to be told are the ones that were not given
/// up before, in their order.
pub proof fn law_a_shutdown_gives_every_flow_up(s: EngineState, h: Handle, n: int)
    requires
        s.flows.contains_key(h),
        0 <= n < s.outgoing.len(),
    ensures
        shut_down(s).flows.dom() == s.flows.dom(),
        shut_down(s).flows[h].cancelled,
        shut_down(s).flows[h].id == s.flows[h].id,
        shut_down(s).flows[h].record.armed is None,
        shut_down(s).flows[h].record.client_closing == s.flows[h].record.client_closing,
        shut_down(s).flows[h].record.upstream_lease == s.flows[h].record.upstream_lease,
        !shut_down(s).idle.contains_key(h),
        shut_down(s).outgoing == s.outgoing,
        shut_down(s).counters == s.counters,
        shut_down(s).running == s.running,
        uncancelled(s.flows, s.outgoing, 0).len() == 0,
        s.flows[s.outgoing[n]].cancelled ==> uncancelled(s.flows, s.outgoing, n + 1) == uncancelled(
            s.flows,
            s.outgoing,
            n,
        ),
        !s.flows[s.outgoing[n]].cancelled ==> uncancelled(s.flows, s.outgoing, n + 1) == uncancelled(
            s.flows,
            s.outgoing,
            n,
        ).push(s.outgoing[n]),
{
    assert(shut_down(s).flows.dom() =~= s.flows.dom());
}

/// A worker that ends gives the flow's lease back. Whether the flow waits for its client to close is as said, and
/// nothing else of it changes.
pub proof fn law_a_lease_goes_back(held: Held<Flow>, client_closing: bool)
    ensures
        !given_back(held, client_closing).record.upstream_lease,
        given_back(held, client_closing).record.client_closing == client_closing,
        given_back(held, client_closing).record.deadline == held.record.deadline,
        given_back(held, client_closing).record.armed == held.record.armed,
        given_back(held, client_closing).record.client == held.record.client,
        given_back(held, client_closing).record.destination == held.record.destination,
        given_back(held, client_closing).record.refresh == held.record.refresh,
        given_back(held, client_closing).id == held.id,
        given_back(held, client_closing).cancelled == held.cancelled,
{
}

/// What crossed a flow is counted octet by octet on each way. A flow that something was delivered to is to be
/// refreshed, and one that nothing was is as it was. What crossed a flow that is there no more is stale.
pub proof fn law_what_crosses_is_counted(s: EngineState, h: Handle, crossing: Option<Crossing>, other: Handle)
    requires
        countable(s.counters),
        crossing is Some ==> s.counters.to_client + crossing->0.to_client <= u64::MAX && s.counters.to_upstream
            + crossing->0.to_upstream <= u64::MAX,
    ensures
        ({
            let after = crossed(s, h, crossing);
            let c = s.counters;
            let d = after.counters;
            &&& crossing is None ==> {
                &&& d.stale == c.stale + 1
                &&& d.to_client == c.to_client
                &&& d.to_upstream == c.to_upstream
                &&& after.flows == s.flows
                &&& after.stack_stale == s.stack_stale
            }
            &&& crossing is Some ==> {
                let crossed = crossing->0;
                &&& d.to_client == c.to_client + crossed.to_client
                &&& d.to_upstream == c.to_upstream + crossed.to_upstream
                &&& d.stale - c.stale == if crossed.stranded {
                    1int
                } else {
                    0
                }
                &&& after.stack_stale <==> s.stack_stale || crossed.moved
                &&& s.flows.contains_key(h) ==> {
                    &&& crossed.delivered ==> after.flows[h].record.refresh
                    &&& !crossed.delivered ==> after.flows[h].record.refresh == s.flows[h].record.refresh
                    &&& after.flows[h].record == (Flow {
                        refresh: after.flows[h].record.refresh,
                        ..s.flows[h].record
                    })
                    &&& after.flows[h].id == s.flows[h].id
                    &&& after.flows[h].cancelled == s.flows[h].cancelled
                }
            }
            &&& other != h && s.flows.contains_key(other) ==> after.flows.contains_key(other) && after.flows[other]
                == s.flows[other]
            &&& after.idle == s.idle
            &&& after.outgoing == s.outgoing
            &&& after.running == s.running
        }),
{
}

/// The flows to be refreshed are those that something was delivered to, with their identities, in their order.
/// Afterwards none is, and nothing else of them has changed.
pub proof fn law_delivered_flows_are_refreshed_once(
    flows: Map<Handle, Held<Flow>>,
    order: Seq<Handle>,
    n: int,
    held: Held<Flow>,
)
    requires
        0 <= n < order.len(),
    ensures
        refreshed(flows, order, 0).len() == 0,
        flows[order[n]].record.refresh ==> refreshed(flows, order, n + 1) == refreshed(flows, order, n).push(
            (order[n], flows[order[n]].id),
        ),
        !flows[order[n]].record.refresh ==> refreshed(flows, order, n + 1) == refreshed(flows, order, n),
        !rested(held).record.refresh,
        rested(held).record == (Flow { refresh: false, ..held.record }),
        rested(held).id == held.id,
        rested(held).cancelled == held.cancelled,
{
}

/// What is counted is counted once, under its own name, and nothing else is.
pub proof fn law_a_count_is_one_more(s: EngineState, what: Count)
    requires
        countable(s.counters),
    ensures
        ({
            let c = s.counters;
            let d = having_counted(s, what).counters;
            &&& d.stale - c.stale == if what is Stale {
                1int
            } else {
                0
            }
            &&& d.denied - c.denied == if what is Denied {
                1int
            } else {
                0
            }
            &&& d.unadmitted - c.unadmitted == if what is Unadmitted {
                1int
            } else {
                0
            }
            &&& d.resolved - c.resolved == if what is Resolved {
                1int
            } else {
                0
            }
            &&& d.answered_here - c.answered_here == if what is AnsweredHere {
                1int
            } else {
                0
            }
            &&& d.unsettled - c.unsettled == if what is Unsettled {
                1int
            } else {
                0
            }
            &&& d.opened == c.opened
            &&& d.reset == c.reset
            &&& d.tail_failed == c.tail_failed
            &&& d.expired == c.expired
            &&& d.client_closing == c.client_closing
            &&& d.closed == c.closed
            &&& d.to_upstream == c.to_upstream
            &&& d.to_client == c.to_client
            &&& d.unconsumed == c.unconsumed
            &&& having_counted(s, what).flows == s.flows
            &&& having_counted(s, what).idle == s.idle
            &&& having_counted(s, what).outgoing == s.outgoing
            &&& having_counted(s, what).running == s.running
        }),
{
}

/// Something is to be done at a time exactly where a flow is waited for until then, or the stack is, while it takes
/// packets.
pub proof fn law_when_something_is_to_be_done(s: EngineState, accepting: bool, h: Handle, t: u64)
    ensures
        s.idle.contains_key(h) ==> wakes_at(s, accepting, s.idle[h].due),
        accepting && s.stack is Some ==> wakes_at(s, accepting, s.stack->0),
        !accepting && s.idle.dom() == Set::<Handle>::empty() ==> !wakes_at(s, accepting, t),
        s.stack is None && s.idle.dom() == Set::<Handle>::empty() ==> !wakes_at(s, accepting, t),
        s.idle.dom() == Set::<Handle>::empty() && s.stack != Some(t) ==> !wakes_at(s, accepting, t),
{
    assert(s.idle.dom() == Set::<Handle>::empty() ==> forall|x: Handle| !#[trigger] s.idle.contains_key(x)) by {
        if s.idle.dom() == Set::<Handle>::empty() {
            assert forall|x: Handle| !#[trigger] s.idle.contains_key(x) by {
                assert(s.idle.dom().contains(x) == s.idle.contains_key(x));
            }
        }
    }
}

/// What was counted is told counter by counter, each with its own name before it, in one order.
pub proof fn law_counters_are_told_by_name(c: Counters)
    ensures
        counters_text(c) == listed(
            seq![
                ("opened "@, c.opened as nat),
                (" resolved "@, c.resolved as nat),
                (" answered-here "@, c.answered_here as nat),
                (" denied "@, c.denied as nat),
                (" unadmitted "@, c.unadmitted as nat),
                (" unsettled "@, c.unsettled as nat),
                (" reset "@, c.reset as nat),
                (" tail-failed "@, c.tail_failed as nat),
                (" expired "@, c.expired as nat),
                (" client-closing "@, c.client_closing as nat),
                (" closed "@, c.closed as nat),
                (" to-upstream "@, c.to_upstream as nat),
                (" to-client "@, c.to_client as nat),
                (" stale "@, c.stale as nat),
                (" unconsumed "@, c.unconsumed as nat),
            ],
            15,
        ),
{
    reveal_with_fuel(listed, 16);
    assert(Seq::<char>::empty() + "opened "@ =~= "opened "@);
}

} // verus!
