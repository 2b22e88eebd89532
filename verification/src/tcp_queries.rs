//! Queries that clients ask the resolver over their flows.
use vstd::prelude::*;

use crate::tcp_engine::{countable, having_counted, Count, Engine, EngineState, Handle};

verus! {

/// Whether a flow is still that flow.
pub open spec fn serves(s: EngineState, h: Handle, id: u64) -> bool {
    s.flows.contains_key(h) && s.flows[h].id == id
}

/// What becomes of a flow's wish to ask something.
#[derive(Clone, Copy, Debug, PartialEq, Eq, Structural)]
pub enum Reserving {
    /// It is another flow by now.
    Stale,
    /// It may not ask.
    Denied,
    /// Room for its query is to be reserved.
    Ask,
    /// It may ask.
    Granted,
}

/// What becomes of a query.
#[derive(Clone, Copy, Debug, PartialEq, Eq, Structural)]
pub enum Committing {
    /// There is none.
    Stale,
    /// It is answered without the resolver.
    AnswerHere,
    /// It is to be submitted.
    Submit,
}

/// What becomes of an answer.
#[derive(Clone, Copy, Debug, PartialEq, Eq, Structural)]
pub enum Settling {
    Discard,
    HandOver,
}

/// Whether a flow that speaks is still that flow. One that is not is counted.
pub fn serving(engine: &mut Engine, h: Handle, id: u64) -> (r: bool)
    requires
        old(engine).wf(),
        countable(old(engine)@.counters),
    ensures
        final(engine).wf(),
        r == serves(old(engine)@, h, id),
        final(engine)@ == if r { old(engine)@ } else { having_counted(old(engine)@, Count::Stale) },
{
    if engine.current(h, id) {
        return true;
    }
    engine.count(Count::Stale);
    false
}

/// Notes whether an acknowledgement was of what was delivered.
pub fn acknowledged(engine: &mut Engine, released: bool)
    requires
        old(engine).wf(),
        countable(old(engine)@.counters),
    ensures
        final(engine).wf(),
        final(engine)@ == if released { old(engine)@ } else { having_counted(old(engine)@, Count::Stale) },
{
    if !released {
        engine.count(Count::Stale);
    }
}

/// Takes a flow's wish to ask something. It may not while nothing is taken, nor while it already has room.
pub fn reserve_query(engine: &mut Engine, h: Handle, id: u64, admitting: bool, reserving: bool) -> (r: Reserving)
    requires
        old(engine).wf(),
        countable(old(engine)@.counters),
    ensures
        final(engine).wf(),
        r == (if !serves(old(engine)@, h, id) {
            Reserving::Stale
        } else if !admitting || reserving {
            Reserving::Denied
        } else {
            Reserving::Ask
        }),
        final(engine)@ == match r {
            Reserving::Stale => having_counted(old(engine)@, Count::Stale),
            Reserving::Denied => having_counted(old(engine)@, Count::Denied),
            _ => old(engine)@,
        },
{
    if !engine.current(h, id) {
        engine.count(Count::Stale);
        return Reserving::Stale;
    }
    if !admitting || reserving {
        engine.count(Count::Denied);
        return Reserving::Denied;
    }
    Reserving::Ask
}

/// Takes whether room for a query could be reserved.
pub fn reserved(engine: &mut Engine, h: Handle, granted: bool) -> (r: Reserving)
    requires
        old(engine).wf(),
        countable(old(engine)@.counters),
    ensures
        final(engine).wf(),
        r == (if !granted {
            Reserving::Denied
        } else if !old(engine)@.flows.contains_key(h) {
            Reserving::Stale
        } else {
            Reserving::Granted
        }),
        final(engine)@ == match r {
            Reserving::Denied => having_counted(old(engine)@, Count::Denied),
            Reserving::Stale => having_counted(old(engine)@, Count::Stale),
            _ => old(engine)@,
        },
{
    if !granted {
        engine.count(Count::Denied);
        return Reserving::Denied;
    }
    if !engine.contains(h) {
        engine.count(Count::Stale);
        return Reserving::Stale;
    }
    Reserving::Granted
}

/// Takes what a flow made of its room: nothing, room without a query, or a query. While nothing is taken a query
/// is answered without the resolver.
pub fn commit_query(engine: &mut Engine, accepted: Option<bool>, admitting: bool) -> (r: Committing)
    requires
        old(engine).wf(),
        countable(old(engine)@.counters),
    ensures
        final(engine).wf(),
        r == (if accepted != Some(true) {
            Committing::Stale
        } else if !admitting {
            Committing::AnswerHere
        } else {
            Committing::Submit
        }),
        final(engine)@ == if r is Stale {
            having_counted(old(engine)@, Count::Stale)
        } else {
            old(engine)@
        },
{
    let has_query = match accepted {
        Some(has_query) => has_query,
        None => false,
    };
    if !has_query {
        engine.count(Count::Stale);
        return Committing::Stale;
    }
    if !admitting {
        return Committing::AnswerHere;
    }
    Committing::Submit
}

/// Takes whether a query was submitted. One that was refused is answered without the resolver.
pub fn submitted(engine: &mut Engine, outstanding: bool) -> (r: Committing)
    requires
        old(engine).wf(),
        countable(old(engine)@.counters),
    ensures
        final(engine).wf(),
        r == (if outstanding { Committing::Submit } else { Committing::AnswerHere }),
        final(engine)@ == having_counted(
            old(engine)@,
            if outstanding { Count::Resolved } else { Count::Unadmitted },
        ),
{
    if outstanding {
        engine.count(Count::Resolved);
        Committing::Submit
    } else {
        engine.count(Count::Unadmitted);
        Committing::AnswerHere
    }
}

/// Begins to answer a query without the resolver. Says whether there is still a flow to answer.
pub fn answer_here(engine: &mut Engine, h: Handle) -> (r: bool)
    requires
        old(engine).wf(),
        countable(old(engine)@.counters),
    ensures
        final(engine).wf(),
        r == old(engine)@.flows.contains_key(h),
        ({
            let begun = having_counted(old(engine)@, Count::AnsweredHere);
            final(engine)@ == if r { begun } else { having_counted(begun, Count::Stale) }
        }),
{
    let there = engine.contains(h);
    engine.count(Count::AnsweredHere);
    if !there {
        engine.count(Count::Stale);
    }
    there
}

/// Notes whether an answer that was handed over is still owed an acknowledgement by somebody who is gone.
pub fn handed_over(engine: &mut Engine, unsettled: bool)
    requires
        old(engine).wf(),
        countable(old(engine)@.counters),
    ensures
        final(engine).wf(),
        final(engine)@ == if unsettled {
            having_counted(old(engine)@, Count::Unsettled)
        } else {
            old(engine)@
        },
{
    if unsettled {
        engine.count(Count::Unsettled);
    }
}

/// Takes an answer of the resolver for a flow. It is handed over where it is one, and the flow is still that flow.
pub fn settle(engine: &mut Engine, h: Handle, id: u64, has_answer: bool) -> (r: Settling)
    requires
        old(engine).wf(),
        countable(old(engine)@.counters),
    ensures
        final(engine).wf(),
        r == (if serves(old(engine)@, h, id) && has_answer {
            Settling::HandOver
        } else {
            Settling::Discard
        }),
        final(engine)@ == if serves(old(engine)@, h, id) {
            old(engine)@
        } else {
            having_counted(old(engine)@, Count::Stale)
        },
{
    if !engine.current(h, id) {
        engine.count(Count::Stale);
        return Settling::Discard;
    }
    if has_answer {
        Settling::HandOver
    } else {
        Settling::Discard
    }
}

/// A query is served only for the very flow that it came from: a flow that took its handle since has another identity.
pub proof fn law_a_query_belongs_to_its_flow(s: EngineState, h: Handle, id: u64)
    ensures
        !s.flows.contains_key(h) ==> !serves(s, h, id),
        s.flows.contains_key(h) ==> serves(s, h, s.flows[h].id),
        s.flows.contains_key(h) && s.flows[h].id != id ==> !serves(s, h, id),
{
}

} // verus!
