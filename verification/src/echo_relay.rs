//! Relaying one echo request, from the client to the upstream.
use vstd::prelude::*;

use crate::addr::IpAddr;
use crate::echo::{
    after_send, allocated, countable, counting, fragmentation_of, law_a_request_gets_a_number_of_its_own, AfterSend,
    Counters, Fragmentation, LocalError, PathMtu, Refused, Relay, RelayState, Request,
};
use crate::echo_session::{taken, Key, ECHO_TIMEOUT};
use crate::send_failure::Failure;

verus! {

/// What relaying a request waits for.
#[derive(Clone, Copy, Debug, PartialEq, Eq, Structural)]
pub enum Relaying {
    /// A socket of its family.
    Socket { hop_limit: u8 },
    /// The socket, which is told whether it may cut.
    Fragmentation { hop_limit: u8 },
    /// The send.
    Sent { sequence: u16 },
    /// The error queue, which may know the path's limit.
    PathMtu,
    /// The report that the client is owed.
    Reported,
    /// Nothing: relaying is over.
    Over,
}

/// What came of it.
#[derive(Clone, Copy, Debug)]
pub enum Event {
    Socket(Result<(), Refused>),
    /// Whether the socket took it.
    Fragmentation(bool),
    Sent(Result<(), Failure>),
    PathMtu(Result<Option<LocalError>, ()>),
    /// Whether the report could be built.
    Reported(bool),
}

/// What a client is owed a report of.
#[derive(Clone, Copy, Debug, PartialEq, Eq, Structural)]
pub enum Owed {
    /// The hop limit ran out here.
    Expired,
    /// The request is longer than its path allows.
    TooBig { mtu: u32 },
}

/// What is done next.
#[derive(Clone, Copy, Debug, PartialEq, Eq, Structural)]
pub enum Action {
    Acquire,
    SetFragmentation(Fragmentation),
    Send { sequence: u16, hop_limit: u8 },
    ReadPathMtu,
    Report(Owed),
    /// The failure is told as it is.
    TellFailure,
    /// It is told that a request was too long and nothing says for which path.
    TellUnattributable,
    Done,
}

/// Whether an event can come.
pub open spec fn expected(relaying: Relaying, event: Event) -> bool {
    match relaying {
        Relaying::Socket { .. } => event is Socket,
        Relaying::Fragmentation { .. } => event is Fragmentation,
        Relaying::Sent { .. } => event is Sent,
        Relaying::PathMtu => event is PathMtu,
        Relaying::Reported => event is Reported,
        Relaying::Over => false,
    }
}

/// Whether relaying has begun.
pub open spec fn begun(before: RelayState, forward: Option<u8>, after: RelayState, r: (Relaying, Action)) -> bool {
    let c = before.counters;
    match forward {
        Some(hop_limit) => after == before && r == (Relaying::Socket { hop_limit }, Action::Acquire),
        None => after == counting(before, Counters { expired: (c.expired + 1) as u64, ..c }) && r == (
            Relaying::Reported,
            Action::Report(Owed::Expired),
        ),
    }
}

/// Whether a request goes out, under the next free sequence number, unless there is none.
pub open spec fn sending(
    before: RelayState,
    remote: IpAddr,
    hop_limit: u8,
    after: RelayState,
    r: (Relaying, Action),
) -> bool {
    match r.0 {
        Relaying::Sent { sequence } => allocated(before, remote, after, Some(sequence)) && r.1 == (Action::Send {
            sequence,
            hop_limit,
        }),
        Relaying::Over => allocated(before, remote, after, None) && r.1 is Done,
        _ => false,
    }
}

/// Whether an event was dealt with.
pub open spec fn relayed(
    before: RelayState,
    request: Request,
    relaying: Relaying,
    event: Event,
    now: u64,
    after: RelayState,
    r: (Relaying, Action),
) -> bool {
    let c = before.counters;
    match event {
        Event::Socket(Err(Refused::Denied)) => r == (Relaying::Over, Action::Done) && after == counting(
            before,
            Counters { denied: (c.denied + 1) as u64, ..c },
        ),
        Event::Socket(Err(Refused::OpenFailed)) => r == (Relaying::Over, Action::Done) && after == counting(
            before,
            Counters { open_failed: (c.open_failed + 1) as u64, ..c },
        ),
        Event::Socket(Ok(_)) => relaying matches Relaying::Socket { hop_limit } && match fragmentation_of(request) {
            Some(fragmentation) => after == before && r == (
                Relaying::Fragmentation { hop_limit },
                Action::SetFragmentation(fragmentation),
            ),
            None => sending(before, request.remote, hop_limit, after, r),
        },
        Event::Fragmentation(set) => relaying matches Relaying::Fragmentation { hop_limit } && if set {
            sending(before, request.remote, hop_limit, after, r)
        } else {
            r == (Relaying::Over, Action::TellFailure) && after == counting(
                before,
                Counters { df_failed: (c.df_failed + 1) as u64, ..c },
            )
        },
        Event::Sent(result) => relaying matches Relaying::Sent { sequence } && ({
            let (sent, then) = after_send(before, request, sequence, result, now);
            after == sent && r == match then {
                AfterSend::Done => (Relaying::Over, Action::Done),
                AfterSend::ReadPathMtu => (Relaying::PathMtu, Action::ReadPathMtu),
                AfterSend::ReportFailure => (Relaying::Over, Action::TellFailure),
            }
        }),
        Event::PathMtu(Ok(Some(error))) if error.errno == 90 => after == before && r == (
            Relaying::Reported,
            Action::Report(Owed::TooBig { mtu: error.info }),
        ),
        Event::PathMtu(queued) => after == counting(
            before,
            Counters { unreported: (c.unreported + 1) as u64, ..c },
        ) && r == (
            Relaying::Over,
            if queued is Ok { Action::TellUnattributable } else { Action::TellFailure },
        ),
        Event::Reported(built) => r == (Relaying::Over, Action::Done) && after == counting(
            before,
            if built {
                Counters { reported: (c.reported + 1) as u64, ..c }
            } else {
                Counters { unreported: (c.unreported + 1) as u64, ..c }
            },
        ),
    }
}

impl Relay {
    /// Begins to relay a request, with the hop limit that it goes on with, unless that ran out.
    pub fn relay(&mut self, forward: Option<u8>) -> (r: (Relaying, Action))
        requires
            old(self).wf(),
            countable(old(self)@.counters),
        ensures
            final(self).wf(),
            begun(old(self)@, forward, final(self)@, r),
    {
        match self.begin(forward) {
            Some(hop_limit) => (Relaying::Socket { hop_limit }, Action::Acquire),
            None => (Relaying::Reported, Action::Report(Owed::Expired)),
        }
    }

    fn send(&mut self, remote: IpAddr, hop_limit: u8) -> (r: (Relaying, Action))
        requires
            old(self).wf(),
            countable(old(self)@.counters),
        ensures
            final(self).wf(),
            sending(old(self)@, remote, hop_limit, final(self)@, r),
    {
        match self.allocate(remote) {
            Some(sequence) => (Relaying::Sent { sequence }, Action::Send { sequence, hop_limit }),
            None => (Relaying::Over, Action::Done),
        }
    }

    /// Takes what came of what relaying a request waited for.
    pub fn advance(&mut self, request: &Request, relaying: Relaying, event: Event, now: u64) -> (r: (
        Relaying,
        Action,
    ))
        requires
            old(self).wf(),
            countable(old(self)@.counters),
            now + ECHO_TIMEOUT <= u64::MAX,
            expected(relaying, event),
        ensures
            final(self).wf(),
            relayed(old(self)@, *request, relaying, event, now, final(self)@, r),
    {
        match (relaying, event) {
            (Relaying::Socket { hop_limit }, Event::Socket(socket)) => {
                if !self.acquired(socket) {
                    return (Relaying::Over, Action::Done);
                }
                match Relay::fragmentation(request) {
                    Some(fragmentation) => (
                        Relaying::Fragmentation { hop_limit },
                        Action::SetFragmentation(fragmentation),
                    ),
                    None => self.send(request.remote, hop_limit),
                }
            },
            (Relaying::Fragmentation { hop_limit }, Event::Fragmentation(set)) => {
                if !self.fragmentation_set(set) {
                    return (Relaying::Over, Action::TellFailure);
                }
                self.send(request.remote, hop_limit)
            },
            (Relaying::Sent { sequence }, Event::Sent(result)) => match self.sent(request, sequence, result, now) {
                AfterSend::Done => (Relaying::Over, Action::Done),
                AfterSend::ReadPathMtu => (Relaying::PathMtu, Action::ReadPathMtu),
                AfterSend::ReportFailure => (Relaying::Over, Action::TellFailure),
            },
            (Relaying::PathMtu, Event::PathMtu(queued)) => match self.path_mtu(queued) {
                PathMtu::Report(mtu) => (Relaying::Reported, Action::Report(Owed::TooBig { mtu })),
                PathMtu::Unattributable => (Relaying::Over, Action::TellUnattributable),
                PathMtu::Failed => (Relaying::Over, Action::TellFailure),
            },
            (Relaying::Reported, Event::Reported(built)) => {
                self.reported(built);
                (Relaying::Over, Action::Done)
            },
            _ => (Relaying::Over, Action::Done),
        }
    }
}

/// How many requests came to an outcome.
pub open spec fn outcomes(c: Counters) -> int {
    c.expired + c.denied + c.open_failed + c.df_failed + c.exhausted + c.sent + c.blocked + c.too_big + c.unreachable
        + c.send_failed
}

/// Whether a request has come to its outcome.
pub open spec fn settled(relaying: Relaying) -> bool {
    relaying is PathMtu || relaying is Reported || relaying is Over
}

/// Every request comes to one outcome, and is counted once for it: when it begins, where its hop limit ran out.
pub proof fn law_one_outcome_from_the_start(
    before: RelayState,
    forward: Option<u8>,
    after: RelayState,
    r: (Relaying, Action),
)
    requires
        countable(before.counters),
        begun(before, forward, after, r),
    ensures
        outcomes(after.counters) == outcomes(before.counters) + if settled(r.0) { 1int } else { 0 },
        after.sessions == before.sessions,
{
}

/// Every request comes to one outcome, and is counted once for it. It is waited for only where it was sent.
pub proof fn law_one_outcome_per_request(
    before: RelayState,
    request: Request,
    relaying: Relaying,
    event: Event,
    now: u64,
    after: RelayState,
    r: (Relaying, Action),
)
    requires
        countable(before.counters),
        expected(relaying, event),
        relayed(before, request, relaying, event, now, after, r),
    ensures
        outcomes(after.counters) == outcomes(before.counters) + if !settled(relaying) && settled(r.0) {
            1int
        } else {
            0
        },
        settled(relaying) ==> settled(r.0),
        after.sessions != before.sessions ==> event matches Event::Sent(Ok(_)),
{
}

/// A client is owed a report only of a request that was not sent: its hop limit ran out, or it was too long and the
/// system said for which limit.
pub proof fn law_reports_are_of_unsent_requests(
    before: RelayState,
    request: Request,
    relaying: Relaying,
    event: Event,
    now: u64,
    after: RelayState,
    r: (Relaying, Action),
)
    requires
        expected(relaying, event),
        relayed(before, request, relaying, event, now, after, r),
        r.1 is Report,
    ensures
        relaying is PathMtu,
        after.sessions == before.sessions,
{
}

/// A request begins with a socket for it, and goes on with just the hop limit that it was given. One whose hop limit
/// ran out is never sent: its client is owed a report of that.
pub proof fn law_a_request_begins_with_a_socket(
    before: RelayState,
    forward: Option<u8>,
    after: RelayState,
    r: (Relaying, Action),
)
    requires
        begun(before, forward, after, r),
        countable(before.counters),
    ensures
        forward is Some ==> r.1 is Acquire && r.0 is Socket && r.0->Socket_hop_limit == forward->0 && after == before,
        forward is None ==> r.1 == Action::Report(Owed::Expired) && r.0 is Reported,
        forward is None ==> after.counters.expired == before.counters.expired + 1,
        after.sessions == before.sessions,
        after.next_sequence == before.next_sequence,
{
}

/// A request whose socket is there goes on: over IPv4 the socket is told first whether it may cut, as the client asked,
/// and over IPv6 the request is sent at once.
pub proof fn law_a_socket_is_used_for_its_request(
    before: RelayState,
    request: Request,
    hop_limit: u8,
    now: u64,
    after: RelayState,
    r: (Relaying, Action),
)
    requires
        relayed(before, request, Relaying::Socket { hop_limit }, Event::Socket(Ok(())), now, after, r),
    ensures
        request.remote is V4 ==> {
            &&& after == before
            &&& r.0 == (Relaying::Fragmentation { hop_limit })
            &&& r.1 == Action::SetFragmentation(
                if request.dont_fragment {
                    Fragmentation::Prohibited
                } else {
                    Fragmentation::Permitted
                },
            )
        },
        request.remote is V6 ==> r.1 is Send || r.1 is Done,
        request.remote is V6 && r.1 is Send ==> r.1->Send_hop_limit == hop_limit && r.0 is Sent && r.0->sequence
            == r.1->Send_sequence,
        request.remote is V6 && r.1 is Done ==> r.0 is Over && forall|sequence: u16|
            #![trigger before.sessions.contains_key(Key { remote: request.remote, sequence })]
            before.sessions.contains_key(Key { remote: request.remote, sequence }),
{
    if request.remote is V6 && r.1 is Done {
        assert forall|sequence: u16|
            #![trigger before.sessions.contains_key(Key { remote: request.remote, sequence })]
            before.sessions.contains_key(Key { remote: request.remote, sequence }) by {
            assert(taken(before.sessions, request.remote, sequence));
        }
    }
}

/// A request whose socket knows about cutting is sent, with its hop limit and under a number that no other request to
/// its remote has. Only where every number is taken is it not. A socket that refused ends it, and the failure is told.
pub proof fn law_a_request_is_sent_once_it_can_be(
    before: RelayState,
    request: Request,
    hop_limit: u8,
    set: bool,
    now: u64,
    after: RelayState,
    r: (Relaying, Action),
)
    requires
        relayed(before, request, Relaying::Fragmentation { hop_limit }, Event::Fragmentation(set), now, after, r),
        countable(before.counters),
    ensures
        set && r.1 is Send ==> {
            &&& r.1->Send_hop_limit == hop_limit
            &&& r.0 == (Relaying::Sent { sequence: r.1->Send_sequence })
            &&& !before.sessions.contains_key(Key { remote: request.remote, sequence: r.1->Send_sequence })
            &&& after.counters == before.counters
        },
        set && !(r.1 is Send) ==> {
            &&& r == (Relaying::Over, Action::Done)
            &&& forall|sequence: u16|
                #![trigger before.sessions.contains_key(Key { remote: request.remote, sequence })]
                before.sessions.contains_key(Key { remote: request.remote, sequence })
            &&& after.counters.exhausted == before.counters.exhausted + 1
        },
        !set ==> r == (Relaying::Over, Action::TellFailure) && after.counters.df_failed == before.counters.df_failed
            + 1,
        after.sessions == before.sessions,
{
    if set && r.1 is Send {
        law_a_request_gets_a_number_of_its_own(before, request.remote, after, Some(r.1->Send_sequence));
    }
    if set && !(r.1 is Send) {
        law_a_request_gets_a_number_of_its_own(before, request.remote, after, None);
    }
}

/// A request that was sent is done with. Of one that could not be sent the path's limit is read where it was too long,
/// and the failure is told where nobody expects it. A request without a socket is done with, and counted for why.
pub proof fn law_what_follows_a_send(
    before: RelayState,
    request: Request,
    sequence: u16,
    result: Result<(), Failure>,
    now: u64,
    after: RelayState,
    r: (Relaying, Action),
)
    requires
        relayed(before, request, Relaying::Sent { sequence }, Event::Sent(result), now, after, r),
        countable(before.counters),
        now + 60_000_000_000 <= u64::MAX,
    ensures
        result is Ok ==> {
            &&& r == (Relaying::Over, Action::Done)
            &&& after.sessions.contains_key(Key { remote: request.remote, sequence })
            &&& after.sessions[Key { remote: request.remote, sequence }].client == request.client
            &&& after.counters.sent == before.counters.sent + 1
        },
        result == Err::<(), Failure>(Failure::TooBig) ==> r == (Relaying::PathMtu, Action::ReadPathMtu),
        result == Err::<(), Failure>(Failure::Unexpected) ==> r == (Relaying::Over, Action::TellFailure),
        result == Err::<(), Failure>(Failure::Blocked) || result == Err::<(), Failure>(Failure::Unreachable) ==> r == (
            Relaying::Over,
            Action::Done,
        ),
        result is Err ==> after.sessions == before.sessions,
{
}

/// The client of a request that was too long is told the limit that the system found for its path, exactly as found.
/// Where the system says nothing of it, that is told instead.
pub proof fn law_a_path_limit_is_told_as_found(
    before: RelayState,
    request: Request,
    queued: Result<Option<LocalError>, ()>,
    now: u64,
    after: RelayState,
    r: (Relaying, Action),
)
    requires
        relayed(before, request, Relaying::PathMtu, Event::PathMtu(queued), now, after, r),
        countable(before.counters),
    ensures
        queued is Ok && queued->Ok_0 is Some && queued->Ok_0->0.errno == 90 ==> r == (
            Relaying::Reported,
            Action::Report(Owed::TooBig { mtu: queued->Ok_0->0.info }),
        ) && after == before,
        queued is Ok && (queued->Ok_0 is None || queued->Ok_0->0.errno != 90) ==> r == (
            Relaying::Over,
            Action::TellUnattributable,
        ) && after.counters.unreported == before.counters.unreported + 1,
        queued is Err ==> r == (Relaying::Over, Action::TellFailure) && after.counters.unreported
            == before.counters.unreported + 1,
        after.sessions == before.sessions,
{
}

/// A report that could be built is counted as reported, and one that could not as unreported. A request that got no
/// socket is counted for why, and nothing is done for it.
pub proof fn law_reports_and_refusals_are_counted(
    before: RelayState,
    request: Request,
    relaying: Relaying,
    built: bool,
    why: Refused,
    now: u64,
    after: RelayState,
    refused: RelayState,
    r: (Relaying, Action),
    s: (Relaying, Action),
)
    requires
        relayed(before, request, Relaying::Reported, Event::Reported(built), now, after, r),
        relayed(before, request, relaying, Event::Socket(Err(why)), now, refused, s),
        countable(before.counters),
    ensures
        r == (Relaying::Over, Action::Done),
        s == (Relaying::Over, Action::Done),
        built ==> after.counters.reported == before.counters.reported + 1 && after.counters.unreported
            == before.counters.unreported,
        !built ==> after.counters.unreported == before.counters.unreported + 1 && after.counters.reported
            == before.counters.reported,
        why is Denied ==> refused.counters.denied == before.counters.denied + 1 && refused.counters.open_failed
            == before.counters.open_failed,
        why is OpenFailed ==> refused.counters.open_failed == before.counters.open_failed + 1 && refused.counters.denied
            == before.counters.denied,
        refused.sessions == before.sessions,
        after.sessions == before.sessions,
{
}

} // verus!
