//! What a flow needs before it can be taken in.
use vstd::prelude::*;

use crate::tcp_engine::{countable, having_counted, Count, Engine, EngineState, Transport};

verus! {

/// Why a flow cannot be set up.
#[derive(Debug, Clone, Copy, PartialEq, Eq, Structural)]
pub enum Denied {
    /// Nothing is left for it.
    Grant,
    /// Its socket cannot listen.
    Listen,
    /// No identity is left.
    Identity,
}

/// What is undone of a flow that will not be.
#[derive(Debug, Clone, Copy, PartialEq, Eq, Structural)]
pub enum Undo {
    /// The socket that was opened for its other end is closed.
    CloseUpstream,
    /// Its socket leaves the client-side stack.
    RemoveSocket,
    /// Its channels go, with what they hold.
    DropChannels,
    /// What it was granted is given back.
    ReleaseGrant,
}

/// What had been set up when a flow was denied, the first of it first, told by what undoes it.
pub open spec fn set_up(why: Denied) -> Seq<Undo> {
    match why {
        Denied::Grant => Seq::empty(),
        Denied::Listen => seq![Undo::ReleaseGrant],
        Denied::Identity => seq![Undo::ReleaseGrant, Undo::RemoveSocket],
    }
}

/// What is undone when a flow is denied, in this order.
pub open spec fn undone(why: Denied) -> Seq<Undo> {
    match why {
        Denied::Grant => Seq::empty(),
        Denied::Listen => seq![Undo::ReleaseGrant],
        Denied::Identity => seq![Undo::RemoveSocket, Undo::ReleaseGrant],
    }
}

/// Everything that had been set up is undone when a flow is denied, the last of it first.
pub proof fn law_what_was_set_up_is_undone(why: Denied)
    ensures
        undone(why) == set_up(why).reverse(),
{
    assert(undone(why) =~= set_up(why).reverse());
}

/// What is undone of a flow that was set up, in this order.
pub open spec fn releasing() -> Seq<Undo> {
    seq![Undo::RemoveSocket, Undo::DropChannels, Undo::ReleaseGrant]
}

/// Says what is undone of a flow that was set up and will not be: the reverse of setting it up.
pub fn release() -> (r: Vec<Undo>)
    ensures
        r@ == releasing(),
{
    let r = vec![Undo::RemoveSocket, Undo::DropChannels, Undo::ReleaseGrant];
    assert(r@ =~= releasing());
    r
}

/// Sets a flow up: it is granted what it needs, its socket listens, and it gets an identity, in this order. Where one
/// of these fails, what was set up before it is to be undone, the last of it first.
pub fn prepare(engine: &mut Engine, granted: bool, listening: bool) -> (r: Result<u64, (Denied, Vec<Undo>)>)
    requires
        old(engine).wf(),
    ensures
        final(engine).wf(),
        match r {
            Ok(id) => granted && listening && id == old(engine)@.next_identity && id < u64::MAX,
            Err((why, undo)) => {
                &&& why == if !granted {
                    Denied::Grant
                } else if !listening {
                    Denied::Listen
                } else {
                    Denied::Identity
                }
                &&& why is Identity ==> old(engine)@.next_identity == u64::MAX
                &&& undo@ == undone(why)
            },
        },
        final(engine)@ == match r {
            Ok(id) => EngineState { next_identity: (id + 1) as u64, ..old(engine)@ },
            Err(_) => old(engine)@,
        },
{
    if !granted {
        return Err((Denied::Grant, Vec::new()));
    }
    if !listening {
        let undo = vec![Undo::ReleaseGrant];
        assert(undo@ =~= undone(Denied::Listen));
        return Err((Denied::Listen, undo));
    }
    match engine.identity() {
        Some(id) => Ok(id),
        None => {
            let undo = vec![Undo::RemoveSocket, Undo::ReleaseGrant];
            assert(undo@ =~= undone(Denied::Identity));
            Err((Denied::Identity, undo))
        },
    }
}

/// Notes that a flow could not be set up. Says whether that is told: only where its socket cannot listen.
pub fn denied(engine: &mut Engine, why: Denied) -> (r: bool)
    requires
        old(engine).wf(),
        countable(old(engine)@.counters),
    ensures
        final(engine).wf(),
        r == (why is Listen),
        final(engine)@ == having_counted(old(engine)@, Count::Denied),
{
    engine.count(Count::Denied);
    match why {
        Denied::Listen => true,
        Denied::Grant => false,
        Denied::Identity => false,
    }
}

/// Builds the transport of a flow that was set up. A flow to the resolver needs no socket of its own. Any other has
/// its socket opened, and only then is it asked whether a descriptor is left for it: where none is, that socket is
/// closed first, then what was set up is undone, and the flow is not built. Where no socket could be opened the flow is
/// built all the same, since its worker is who tells.
pub fn build(engine: &mut Engine, resolver: bool, opened: bool, granted: bool) -> (r: Result<Transport, Vec<Undo>>)
    requires
        old(engine).wf(),
        countable(old(engine)@.counters),
    ensures
        final(engine).wf(),
        match r {
            Ok(transport) => (resolver || !opened || granted) && transport == if resolver {
                Transport::Resolver
            } else if !opened {
                Transport::Unopened
            } else {
                Transport::Upstream
            },
            Err(undo) => !resolver && opened && !granted && undo@ == seq![Undo::CloseUpstream] + releasing(),
        },
        final(engine)@ == if r is Err {
            having_counted(old(engine)@, Count::Denied)
        } else {
            old(engine)@
        },
{
    if resolver {
        return Ok(Transport::Resolver);
    }
    if !opened {
        return Ok(Transport::Unopened);
    }
    if granted {
        return Ok(Transport::Upstream);
    }
    engine.count(Count::Denied);
    let mut undo = vec![Undo::CloseUpstream];
    let mut rest = release();
    undo.append(&mut rest);
    assert(undo@ =~= seq![Undo::CloseUpstream] + releasing());
    Err(undo)
}

/// Whatever was done towards a flow that cannot be had is undone, the last thing first: nothing where there was no
/// grant, the grant where nothing listens, and the socket and the grant where there is no identity left.
pub proof fn law_a_denied_flow_leaves_nothing_behind(why: Denied)
    ensures
        why is Grant <==> undone(why).len() == 0,
        !(why is Grant) ==> undone(why).last() == Undo::ReleaseGrant,
        why is Identity <==> undone(why).contains(Undo::RemoveSocket),
        why is Identity ==> undone(why).len() == 2 && undone(why)[0] == Undo::RemoveSocket,
        why is Listen ==> undone(why).len() == 1,
{
    if why is Identity {
        assert(undone(why)[0] == Undo::RemoveSocket);
    }
}

/// A flow that was set up is released in one order: the socket, the channels, and last the grant.
pub proof fn law_the_grant_goes_last()
    ensures
        releasing().len() == 3,
        releasing()[0] == Undo::RemoveSocket,
        releasing()[1] == Undo::DropChannels,
        releasing()[2] == Undo::ReleaseGrant,
{
}

} // verus!
