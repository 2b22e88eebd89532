//! Echo requests on their way to the upstream, and what comes back of them.
use vstd::prelude::*;

use crate::addr::IpAddr;
use crate::echo_session::{
    awaits, candidate, first_free, law_a_free_number_is_found_in_turn, law_the_only_request_is_taken, sequence_after,
    taken, took_only, Found, Identity, Key, Session, Sessions, ECHO_TIMEOUT,
};
use crate::rows::undue;
use crate::send_failure::{emsgsize, Failure};
use crate::text::{decimal, listed, push_decimal, push_field};

verus! {

/// How often each thing happened.
#[derive(Clone, Copy, Debug, PartialEq, Eq, Structural)]
pub struct Counters {
    pub sent: u64,
    pub queued: u64,
    pub unqueued: u64,
    pub denied: u64,
    pub expired: u64,
    pub too_big: u64,
    pub blocked: u64,
    pub unreachable: u64,
    pub send_failed: u64,
    pub reported: u64,
    pub unreported: u64,
    pub df_failed: u64,
    pub open_failed: u64,
    pub exhausted: u64,
    pub unmatched: u64,
    pub unparseable: u64,
    pub translated: u64,
    pub untranslated: u64,
    pub ambiguous: u64,
    pub implausible: u64,
    pub stale: u64,
    pub swept: u64,
}

/// Whether every counter can still be counted up.
pub open spec fn countable(c: Counters) -> bool {
    &&& c.sent < u64::MAX && c.queued < u64::MAX && c.unqueued < u64::MAX && c.denied < u64::MAX
    &&& c.expired < u64::MAX && c.too_big < u64::MAX && c.blocked < u64::MAX && c.unreachable < u64::MAX
    &&& c.send_failed < u64::MAX && c.reported < u64::MAX && c.unreported < u64::MAX && c.df_failed < u64::MAX
    &&& c.open_failed < u64::MAX && c.exhausted < u64::MAX && c.unmatched < u64::MAX
    &&& c.unparseable < u64::MAX && c.translated < u64::MAX && c.untranslated < u64::MAX
    &&& c.ambiguous < u64::MAX && c.implausible < u64::MAX && c.stale < u64::MAX && c.swept < u64::MAX
}

/// What was counted.
pub open spec fn counters_text(c: Counters) -> Seq<char> {
    "sent "@ + decimal(c.sent as nat) + " queued "@ + decimal(c.queued as nat) + " unqueued "@ + decimal(
        c.unqueued as nat,
    ) + " denied "@ + decimal(c.denied as nat) + " expired "@ + decimal(c.expired as nat) + " too-big "@
        + decimal(c.too_big as nat) + " blocked "@ + decimal(c.blocked as nat) + " unreachable "@ + decimal(
        c.unreachable as nat,
    ) + " send-failed "@ + decimal(c.send_failed as nat) + " reported "@ + decimal(c.reported as nat)
        + " unreported "@ + decimal(c.unreported as nat) + " df-failed "@ + decimal(c.df_failed as nat)
        + " open-failed "@ + decimal(c.open_failed as nat) + " exhausted "@ + decimal(c.exhausted as nat)
        + " unmatched "@ + decimal(c.unmatched as nat) + " unparseable "@ + decimal(c.unparseable as nat)
        + " translated "@ + decimal(c.translated as nat) + " untranslated "@ + decimal(
        c.untranslated as nat,
    ) + " ambiguous "@ + decimal(c.ambiguous as nat) + " implausible "@ + decimal(c.implausible as nat)
        + " stale "@ + decimal(c.stale as nat) + " swept "@ + decimal(c.swept as nat)
}

impl Counters {
    /// Whether every counter can count one more.
    pub fn can_count(&self) -> (r: bool)
        ensures
            r == countable(*self),
    {
        self.sent < u64::MAX && self.queued < u64::MAX && self.unqueued < u64::MAX && self.denied < u64::MAX
            && self.expired < u64::MAX && self.too_big < u64::MAX && self.blocked < u64::MAX
            && self.unreachable < u64::MAX && self.send_failed < u64::MAX && self.reported < u64::MAX
            && self.unreported < u64::MAX && self.df_failed < u64::MAX && self.open_failed < u64::MAX
            && self.exhausted < u64::MAX && self.unmatched < u64::MAX && self.unparseable < u64::MAX
            && self.translated < u64::MAX && self.untranslated < u64::MAX && self.ambiguous < u64::MAX
            && self.implausible < u64::MAX && self.stale < u64::MAX && self.swept < u64::MAX
    }

    /// Nothing happened.
    pub fn new() -> (r: Self)
        ensures
            r == Self::zero(),
    {
        Counters {
            sent: 0,
            queued: 0,
            unqueued: 0,
            denied: 0,
            expired: 0,
            too_big: 0,
            blocked: 0,
            unreachable: 0,
            send_failed: 0,
            reported: 0,
            unreported: 0,
            df_failed: 0,
            open_failed: 0,
            exhausted: 0,
            unmatched: 0,
            unparseable: 0,
            translated: 0,
            untranslated: 0,
            ambiguous: 0,
            implausible: 0,
            stale: 0,
            swept: 0,
        }
    }

    /// Nothing happened.
    pub open spec fn zero() -> Counters {
        Counters {
            sent: 0,
            queued: 0,
            unqueued: 0,
            denied: 0,
            expired: 0,
            too_big: 0,
            blocked: 0,
            unreachable: 0,
            send_failed: 0,
            reported: 0,
            unreported: 0,
            df_failed: 0,
            open_failed: 0,
            exhausted: 0,
            unmatched: 0,
            unparseable: 0,
            translated: 0,
            untranslated: 0,
            ambiguous: 0,
            implausible: 0,
            stale: 0,
            swept: 0,
        }
    }

    /// Says what was counted.
    pub fn describe(&self) -> (r: String)
        ensures
            r@ == counters_text(*self),
    {
        let mut out = "sent ".to_owned();
        push_decimal(&mut out, self.sent);
        push_field(&mut out, " queued ", self.queued);
        push_field(&mut out, " unqueued ", self.unqueued);
        push_field(&mut out, " denied ", self.denied);
        push_field(&mut out, " expired ", self.expired);
        push_field(&mut out, " too-big ", self.too_big);
        push_field(&mut out, " blocked ", self.blocked);
        push_field(&mut out, " unreachable ", self.unreachable);
        push_field(&mut out, " send-failed ", self.send_failed);
        push_field(&mut out, " reported ", self.reported);
        push_field(&mut out, " unreported ", self.unreported);
        push_field(&mut out, " df-failed ", self.df_failed);
        push_field(&mut out, " open-failed ", self.open_failed);
        push_field(&mut out, " exhausted ", self.exhausted);
        push_field(&mut out, " unmatched ", self.unmatched);
        push_field(&mut out, " unparseable ", self.unparseable);
        push_field(&mut out, " translated ", self.translated);
        push_field(&mut out, " untranslated ", self.untranslated);
        push_field(&mut out, " ambiguous ", self.ambiguous);
        push_field(&mut out, " implausible ", self.implausible);
        push_field(&mut out, " stale ", self.stale);
        push_field(&mut out, " swept ", self.swept);
        out
    }
}

/// A client's echo request.
#[derive(Clone, Copy, Debug, PartialEq, Eq, Structural)]
pub struct Request {
    pub client: IpAddr,
    pub remote: IpAddr,
    pub hop_limit: u8,
    pub dont_fragment: bool,
    pub identity: Identity,
}

/// Why there is no socket.
#[derive(Clone, Copy, Debug, PartialEq, Eq, Structural)]
pub enum Refused {
    Denied,
    OpenFailed,
}

/// Whether the system may cut what is sent.
#[derive(Clone, Copy, Debug, PartialEq, Eq, Structural)]
pub enum Fragmentation {
    Permitted,
    Prohibited,
}

/// What is to be done after a send.
#[derive(Clone, Copy, Debug, PartialEq, Eq, Structural)]
pub enum AfterSend {
    /// Nothing more.
    Done,
    /// The error queue is to be read for the path's limit.
    ReadPathMtu,
    /// The failure is to be reported as it is.
    ReportFailure,
}

/// An error that the system queued about a send of its own.
#[derive(Clone, Copy, Debug, PartialEq, Eq, Structural)]
pub struct LocalError {
    pub errno: i32,
    pub info: u32,
}

/// What is to be told of a send that was too long.
#[derive(Clone, Copy, Debug, PartialEq, Eq, Structural)]
pub enum PathMtu {
    /// The client is told the path's limit.
    Report(u32),
    /// The limit is nobody's.
    Unattributable,
    /// The error queue could not be read.
    Failed,
}

/// Why an error of the upstream is not handed on.
#[derive(Clone, Copy, Debug, PartialEq, Eq, Structural)]
pub enum Untranslatable {
    Implausible,
    Other,
}

/// Echo requests that were sent on, and what was counted.
pub struct Relay {
    sessions: Sessions,
    counters: Counters,
}

/// What is known of the requests.
#[verifier::ext_equal]
pub struct RelayState {
    pub sessions: Map<Key, Session>,
    pub next_sequence: u16,
    pub counters: Counters,
}

impl View for Relay {
    type V = RelayState;

    closed spec fn view(&self) -> RelayState {
        RelayState {
            sessions: self.sessions.spec_sessions(),
            next_sequence: self.sessions.spec_next(),
            counters: self.counters,
        }
    }
}

/// The same requests with other counters.
pub open spec fn counting(state: RelayState, counters: Counters) -> RelayState {
    RelayState { counters, ..state }
}

/// What a socket is to be told about cutting, which only IPv4 has.
pub open spec fn fragmentation_of(request: Request) -> Option<Fragmentation> {
    if request.remote is V6 {
        None
    } else if request.dont_fragment {
        Some(Fragmentation::Prohibited)
    } else {
        Some(Fragmentation::Permitted)
    }
}

/// What sending a request came to: it is waited for, or what failed is counted.
pub open spec fn after_send(
    state: RelayState,
    request: Request,
    sequence: u16,
    result: Result<(), Failure>,
    now: u64,
) -> (RelayState, AfterSend) {
    let c = state.counters;
    match result {
        Ok(_) => (
            RelayState {
                counters: Counters { sent: (c.sent + 1) as u64, ..c },
                sessions: state.sessions.insert(
                    Key { remote: request.remote, sequence },
                    Session {
                        client: request.client,
                        identity: request.identity,
                        hop_limit: request.hop_limit,
                        deadline: (now + ECHO_TIMEOUT) as u64,
                    },
                ),
                ..state
            },
            AfterSend::Done,
        ),
        Err(Failure::Blocked) => (
            counting(state, Counters { blocked: (c.blocked + 1) as u64, ..c }),
            AfterSend::Done,
        ),
        Err(Failure::TooBig) => (
            counting(state, Counters { too_big: (c.too_big + 1) as u64, ..c }),
            AfterSend::ReadPathMtu,
        ),
        Err(Failure::Unreachable) => (
            counting(state, Counters { unreachable: (c.unreachable + 1) as u64, ..c }),
            AfterSend::Done,
        ),
        Err(Failure::Unexpected) => (
            counting(state, Counters { send_failed: (c.send_failed + 1) as u64, ..c }),
            AfterSend::ReportFailure,
        ),
    }
}

/// Whether `r` is the sequence number that a request to a remote goes with: the first free one in turn, unless all are
/// taken, which is counted.
pub open spec fn allocated(before: RelayState, remote: IpAddr, after: RelayState, r: Option<u16>) -> bool {
    match r {
        Some(sequence) => exists|k: int|
            {
                &&& #[trigger] first_free(before.sessions, remote, before.next_sequence, k)
                &&& sequence == sequence_after(before.next_sequence, k)
                &&& after == (RelayState {
                    next_sequence: sequence_after(before.next_sequence, k + 1),
                    ..before
                })
            },
        None => {
            let c = before.counters;
            &&& forall|sequence: u16| #[trigger] taken(before.sessions, remote, sequence)
            &&& after == counting(before, Counters { exhausted: (c.exhausted + 1) as u64, ..c })
        },
    }
}

/// What a reply comes to: whose it is and the hop limit it goes on with, where it is one.
pub open spec fn after_reply(
    state: RelayState,
    current: bool,
    remote: IpAddr,
    sequence: Option<u16>,
    forward: Option<u8>,
    now: u64,
) -> (RelayState, Option<(Session, u8)>) {
    let c = state.counters;
    if !current {
        (counting(state, Counters { stale: (c.stale + 1) as u64, ..c }), None)
    } else {
        match sequence {
            None => (counting(state, Counters { unparseable: (c.unparseable + 1) as u64, ..c }), None),
            Some(sequence) => if !awaits(state.sessions, remote, sequence, now) {
                (counting(state, Counters { unmatched: (c.unmatched + 1) as u64, ..c }), None)
            } else {
                let key = Key { remote, sequence };
                let rest = RelayState { sessions: state.sessions.remove(key), ..state };
                match forward {
                    Some(hop_limit) => (rest, Some((state.sessions[key], hop_limit))),
                    None => (counting(rest, Counters { expired: (c.expired + 1) as u64, ..c }), None),
                }
            },
        }
    }
}

impl Relay {
    pub closed spec fn wf(&self) -> bool {
        self.sessions.wf()
    }

    /// No requests.
    pub fn new() -> (r: Self)
        ensures
            r.wf(),
            r@ == (RelayState {
                sessions: Map::<Key, Session>::empty(),
                next_sequence: 0,
                counters: Counters::zero(),
            }),
    {
        Relay { sessions: Sessions::default(), counters: Counters::new() }
    }

    /// Begins to relay a request, with the hop limit it would go on with. One whose hop limit ran out is counted,
    /// and its client is owed a report.
    pub fn begin(&mut self, forward: Option<u8>) -> (r: Option<u8>)
        requires
            old(self).wf(),
            countable(old(self)@.counters),
        ensures
            final(self).wf(),
            r == forward,
            final(self)@ == match forward {
                Some(_) => old(self)@,
                None => {
                    let c = old(self)@.counters;
                    counting(old(self)@, Counters { expired: (c.expired + 1) as u64, ..c })
                },
            },
    {
        if forward.is_none() {
            self.counters.expired += 1;
        }
        forward
    }

    /// Notes whether there is a socket to send with. Says whether to go on.
    pub fn acquired(&mut self, socket: Result<(), Refused>) -> (r: bool)
        requires
            old(self).wf(),
            countable(old(self)@.counters),
        ensures
            final(self).wf(),
            r == socket is Ok,
            ({
                let c = old(self)@.counters;
                final(self)@ == match socket {
                    Ok(_) => old(self)@,
                    Err(Refused::Denied) => counting(
                        old(self)@,
                        Counters { denied: (c.denied + 1) as u64, ..c },
                    ),
                    Err(Refused::OpenFailed) => counting(
                        old(self)@,
                        Counters { open_failed: (c.open_failed + 1) as u64, ..c },
                    ),
                }
            }),
    {
        match socket {
            Ok(_) => true,
            Err(Refused::Denied) => {
                self.counters.denied += 1;
                false
            },
            Err(Refused::OpenFailed) => {
                self.counters.open_failed += 1;
                false
            },
        }
    }

    /// What the socket is to be told about cutting, which only IPv4 has.
    pub fn fragmentation(request: &Request) -> (r: Option<Fragmentation>)
        ensures
            r == fragmentation_of(*request),
    {
        if request.remote.is_ipv6() {
            None
        } else if request.dont_fragment {
            Some(Fragmentation::Prohibited)
        } else {
            Some(Fragmentation::Permitted)
        }
    }

    /// Notes whether the socket took it. Says whether to go on.
    pub fn fragmentation_set(&mut self, set: bool) -> (r: bool)
        requires
            old(self).wf(),
            countable(old(self)@.counters),
        ensures
            final(self).wf(),
            r == set,
            ({
                let c = old(self)@.counters;
                final(self)@ == if set {
                    old(self)@
                } else {
                    counting(old(self)@, Counters { df_failed: (c.df_failed + 1) as u64, ..c })
                }
            }),
    {
        if !set {
            self.counters.df_failed += 1;
        }
        set
    }

    /// The sequence number that a request to a remote goes with: the first free one in turn, unless all are
    /// taken, which is counted.
    pub fn allocate(&mut self, remote: IpAddr) -> (r: Option<u16>)
        requires
            old(self).wf(),
            countable(old(self)@.counters),
        ensures
            final(self).wf(),
            allocated(old(self)@, remote, final(self)@, r),
    {
        match self.sessions.allocate(remote) {
            Some(sequence) => {
                proof {
                    let k = choose|k: int|
                        {
                            &&& #[trigger] first_free(
                                old(self)@.sessions,
                                remote,
                                old(self)@.next_sequence,
                                k,
                            )
                            &&& sequence == sequence_after(old(self)@.next_sequence, k)
                            &&& self.sessions.spec_next() == sequence_after(
                                old(self)@.next_sequence,
                                k + 1,
                            )
                        };
                    assert(first_free(old(self)@.sessions, remote, old(self)@.next_sequence, k));
                }
                Some(sequence)
            },
            None => {
                self.counters.exhausted += 1;
                None
            },
        }
    }

    /// Notes what sending a request came to.
    pub fn sent(
        &mut self,
        request: &Request,
        sequence: u16,
        result: Result<(), Failure>,
        now: u64,
    ) -> (r: AfterSend)
        requires
            old(self).wf(),
            countable(old(self)@.counters),
            now + ECHO_TIMEOUT <= u64::MAX,
        ensures
            final(self).wf(),
            (final(self)@, r) == after_send(old(self)@, *request, sequence, result, now),
    {
        match result {
            Ok(_) => {
                self.counters.sent += 1;
                self.sessions.insert(
                    request.remote,
                    sequence,
                    request.client,
                    request.identity,
                    request.hop_limit,
                    now,
                );
                AfterSend::Done
            },
            Err(Failure::Blocked) => {
                self.counters.blocked += 1;
                AfterSend::Done
            },
            Err(Failure::TooBig) => {
                self.counters.too_big += 1;
                AfterSend::ReadPathMtu
            },
            Err(Failure::Unreachable) => {
                self.counters.unreachable += 1;
                AfterSend::Done
            },
            Err(Failure::Unexpected) => {
                self.counters.send_failed += 1;
                AfterSend::ReportFailure
            },
        }
    }

    /// Notes what the error queue had about a send that was too long. Only an error that says so carries the
    /// path's limit.
    pub fn path_mtu(&mut self, queued: Result<Option<LocalError>, ()>) -> (r: PathMtu)
        requires
            old(self).wf(),
            countable(old(self)@.counters),
        ensures
            final(self).wf(),
            r == (match queued {
                Ok(Some(error)) => if error.errno == 90 {
                    PathMtu::Report(error.info)
                } else {
                    PathMtu::Unattributable
                },
                Ok(None) => PathMtu::Unattributable,
                Err(_) => PathMtu::Failed,
            }),
            ({
                let c = old(self)@.counters;
                final(self)@ == if r is Report {
                    old(self)@
                } else {
                    counting(old(self)@, Counters { unreported: (c.unreported + 1) as u64, ..c })
                }
            }),
    {
        match queued {
            Ok(Some(error)) => if error.errno == emsgsize() {
                PathMtu::Report(error.info)
            } else {
                self.counters.unreported += 1;
                PathMtu::Unattributable
            },
            Ok(None) => {
                self.counters.unreported += 1;
                PathMtu::Unattributable
            },
            Err(_) => {
                self.counters.unreported += 1;
                PathMtu::Failed
            },
        }
    }

    /// Notes whether a report to a client could be built.
    pub fn reported(&mut self, built: bool)
        requires
            old(self).wf(),
            countable(old(self)@.counters),
        ensures
            final(self).wf(),
            ({
                let c = old(self)@.counters;
                final(self)@ == counting(
                    old(self)@,
                    if built {
                        Counters { reported: (c.reported + 1) as u64, ..c }
                    } else {
                        Counters { unreported: (c.unreported + 1) as u64, ..c }
                    },
                )
            }),
    {
        if built {
            self.counters.reported += 1;
        } else {
            self.counters.unreported += 1;
        }
    }

    /// Takes a reply: whether its socket is still the current one, where it came from, the sequence number that
    /// could be read, and the hop limit it would go on with.
    pub fn reply(
        &mut self,
        current: bool,
        remote: IpAddr,
        sequence: Option<u16>,
        forward: Option<u8>,
        now: u64,
    ) -> (r: Option<(Session, u8)>)
        requires
            old(self).wf(),
            countable(old(self)@.counters),
        ensures
            final(self).wf(),
            (final(self)@, r) == after_reply(old(self)@, current, remote, sequence, forward, now),
    {
        if !current {
            self.counters.stale += 1;
            return None;
        }
        let sequence = match sequence {
            Some(sequence) => sequence,
            None => {
                self.counters.unparseable += 1;
                return None;
            },
        };
        let session = match self.sessions.take_live(remote, sequence, now) {
            Some(session) => session,
            None => {
                self.counters.unmatched += 1;
                assert(self@.sessions =~= old(self)@.sessions);
                return None;
            },
        };
        match forward {
            Some(hop_limit) => Some((session, hop_limit)),
            None => {
                self.counters.expired += 1;
                None
            },
        }
    }

    /// Notes whether a reply was put on its way to its client.
    pub fn queued(&mut self, queued: bool)
        requires
            old(self).wf(),
            countable(old(self)@.counters),
        ensures
            final(self).wf(),
            ({
                let c = old(self)@.counters;
                final(self)@ == counting(
                    old(self)@,
                    if queued {
                        Counters { queued: (c.queued + 1) as u64, ..c }
                    } else {
                        Counters { unqueued: (c.unqueued + 1) as u64, ..c }
                    },
                )
            }),
    {
        if queued {
            self.counters.queued += 1;
        } else {
            self.counters.unqueued += 1;
        }
    }

    /// Takes an error of the upstream about a request: whether its socket is still the current one, the family
    /// of that socket, the sequence number of the request it quotes, and whether it came from IPv6. The request,
    /// where it is the only one that can be meant, and is answered in its own family.
    pub fn repeat(
        &mut self,
        current: bool,
        ipv6: bool,
        quoted: Option<u16>,
        from_ipv6: bool,
        now: u64,
    ) -> (r: Option<(IpAddr, Session)>)
        requires
            old(self).wf(),
            countable(old(self)@.counters),
            old(self)@.counters.swept + old(self)@.sessions.dom().len() <= u64::MAX,
        ensures
            final(self).wf(),
            repeated(old(self)@, final(self)@, current, ipv6, quoted, from_ipv6, now, r),
    {
        if !current {
            self.counters.stale += 1;
            return None;
        }
        let quoted = match quoted {
            Some(quoted) => quoted,
            None => {
                self.counters.unparseable += 1;
                return None;
            },
        };
        let _all: usize = self.sessions.len();
        let (swept, found) = self.sessions.take_live_by_sequence(ipv6, quoted, now);
        self.counters.swept += swept as u64;
        let meant = match found {
            Found::One { remote, session } => if from_ipv6 != ipv6 {
                self.counters.implausible += 1;
                None
            } else {
                Some((remote, session))
            },
            Found::Ambiguous => {
                self.counters.ambiguous += 1;
                None
            },
            Found::Missing => {
                self.counters.unmatched += 1;
                None
            },
        };
        assert(took_only(
            swept_by(old(self)@, now).sessions,
            self@.sessions,
            Some(ipv6),
            quoted,
            found,
        ));
        meant
    }

    /// Notes whether an error could be put in the client's terms. Says whether to go on.
    pub fn translated(&mut self, result: Result<(), Untranslatable>) -> (r: bool)
        requires
            old(self).wf(),
            countable(old(self)@.counters),
        ensures
            final(self).wf(),
            r == result is Ok,
            ({
                let c = old(self)@.counters;
                final(self)@ == match result {
                    Ok(_) => old(self)@,
                    Err(Untranslatable::Implausible) => counting(
                        old(self)@,
                        Counters { implausible: (c.implausible + 1) as u64, ..c },
                    ),
                    Err(Untranslatable::Other) => counting(
                        old(self)@,
                        Counters { untranslated: (c.untranslated + 1) as u64, ..c },
                    ),
                }
            }),
    {
        match result {
            Ok(_) => true,
            Err(Untranslatable::Implausible) => {
                self.counters.implausible += 1;
                false
            },
            Err(Untranslatable::Other) => {
                self.counters.untranslated += 1;
                false
            },
        }
    }

    /// Notes whether the client's error could be built.
    pub fn rebuilt(&mut self, built: bool)
        requires
            old(self).wf(),
            countable(old(self)@.counters),
        ensures
            final(self).wf(),
            ({
                let c = old(self)@.counters;
                final(self)@ == counting(
                    old(self)@,
                    if built {
                        Counters { translated: (c.translated + 1) as u64, ..c }
                    } else {
                        Counters { implausible: (c.implausible + 1) as u64, ..c }
                    },
                )
            }),
    {
        if built {
            self.counters.translated += 1;
        } else {
            self.counters.implausible += 1;
        }
    }

    /// Notes whether a socket that ended was still the current one.
    pub fn closed(&mut self, current: bool)
        requires
            old(self).wf(),
            countable(old(self)@.counters),
        ensures
            final(self).wf(),
            ({
                let c = old(self)@.counters;
                final(self)@ == if current {
                    old(self)@
                } else {
                    counting(old(self)@, Counters { stale: (c.stale + 1) as u64, ..c })
                }
            }),
    {
        if !current {
            self.counters.stale += 1;
        }
    }

    /// Forgets every request.
    pub fn clear(&mut self)
        requires
            old(self).wf(),
        ensures
            final(self).wf(),
            final(self)@ == (RelayState { sessions: Map::<Key, Session>::empty(), ..old(self)@ }),
    {
        self.sessions.clear();
    }

    /// Whether every counter can count one more, and the requests that are forgotten too.
    pub fn can_count(&self) -> (r: bool)
        requires
            self.wf(),
        ensures
            r == (countable(self@.counters) && self@.counters.swept + self@.sessions.dom().len() <= u64::MAX),
    {
        let waiting: u64 = self.sessions.len() as u64;
        self.counters.can_count() && waiting <= u64::MAX - self.counters.swept
    }

    /// Forgets the requests that no reply came to in time.
    pub fn sweep(&mut self, now: u64)
        requires
            old(self).wf(),
            old(self)@.counters.swept + old(self)@.sessions.dom().len() <= u64::MAX,
        ensures
            final(self).wf(),
            final(self)@ == swept_by(old(self)@, now),
    {
        let _all: usize = self.sessions.len();
        let expired = self.sessions.expire(now);
        if expired > 0 {
            self.counters.swept += expired as u64;
        }
    }

    /// When the next request is forgotten.
    pub fn next_deadline(&self) -> (r: Option<u64>)
        requires
            self.wf(),
        ensures
            match r {
                Some(t) => {
                    &&& exists|key: Key|
                        #[trigger] self@.sessions.contains_key(key) && self@.sessions[key].deadline == t
                    &&& forall|key: Key|
                        #[trigger] self@.sessions.contains_key(key) ==> t <= self@.sessions[key].deadline
                },
                None => self@.sessions == Map::<Key, Session>::empty(),
            },
    {
        let r = self.sessions.next_deadline();
        proof {
            if r is Some {
                let key = choose|key: Key|
                    #[trigger] self.sessions.spec_sessions().contains_key(key)
                        && self.sessions.spec_sessions()[key].deadline == r->0;
                assert(self@.sessions.contains_key(key));
            }
        }
        r
    }

    /// Says how many requests there are over how many sockets, and what was counted.
    pub fn describe(&self, sockets: usize) -> (r: String)
        requires
            self.wf(),
        ensures
            r@ == decimal(self@.sessions.dom().len()) + " sessions over "@ + decimal(sockets as nat)
                + " sockets, "@ + counters_text(self@.counters),
    {
        let mut out = crate::text::decimal_text(self.sessions.len() as u64);
        push_field(&mut out, " sessions over ", sockets as u64);
        out.append(" sockets, ");
        out.append(self.counters.describe().as_str());
        out
    }
}

/// A relay after the requests that no reply came to in time were forgotten.
pub open spec fn swept_by(state: RelayState, now: u64) -> RelayState {
    let rest = undue(state.sessions, now);
    let c = state.counters;
    RelayState {
        sessions: rest,
        counters: Counters {
            swept: (c.swept + (state.sessions.dom().len() - rest.dom().len())) as u64,
            ..c
        },
        ..state
    }
}

/// Whether an error of the upstream came to `r`, and left `after` behind.
pub open spec fn repeated(
    before: RelayState,
    after: RelayState,
    current: bool,
    ipv6: bool,
    quoted: Option<u16>,
    from_ipv6: bool,
    now: u64,
    r: Option<(IpAddr, Session)>,
) -> bool {
    let c = before.counters;
    if !current {
        r is None && after == counting(before, Counters { stale: (c.stale + 1) as u64, ..c })
    } else {
        match quoted {
            None => r is None && after == counting(
                before,
                Counters { unparseable: (c.unparseable + 1) as u64, ..c },
            ),
            Some(quoted) => {
                let swept = swept_by(before, now);
                let s = swept.counters;
                exists|found: Found|
                    {
                        &&& #[trigger] took_only(swept.sessions, after.sessions, Some(ipv6), quoted, found)
                        &&& after.next_sequence == before.next_sequence
                        &&& match found {
                            Found::One { remote, session } => if from_ipv6 == ipv6 {
                                r == Some((remote, session)) && after.counters == s
                            } else {
                                r is None && after.counters == Counters {
                                    implausible: (s.implausible + 1) as u64,
                                    ..s
                                }
                            },
                            Found::Ambiguous => r is None && after.counters == Counters {
                                ambiguous: (s.ambiguous + 1) as u64,
                                ..s
                            },
                            Found::Missing => r is None && after.counters == Counters {
                                unmatched: (s.unmatched + 1) as u64,
                                ..s
                            },
                        }
                    }
            },
        }
    }
}

/// A request that was sent is found by its reply while its time is not over, and only its own reply finds it: a
/// reply from the remote with its sequence number gives back the client, what it called its request, and its hop
/// limit. A later one finds nothing.
pub proof fn law_reply_finds_its_request(
    state: RelayState,
    request: Request,
    sequence: u16,
    now: u64,
    hop_limit: u8,
    later: u64,
)
    requires
        now + ECHO_TIMEOUT <= u64::MAX,
    ensures
        ({
            let sent = after_send(state, request, sequence, Ok(()), now).0;
            let (_, found) = after_reply(sent, true, request.remote, Some(sequence), Some(hop_limit), later);
            if later < now + ECHO_TIMEOUT {
                found matches Some((session, hops)) && session.client == request.client && session.identity
                    == request.identity && session.hop_limit == request.hop_limit && hops == hop_limit
            } else {
                found is None
            }
        }),
{
}

/// A socket to an IPv4 remote is told never to cut exactly where the client asked for that, and to cut as needed
/// exactly where it did not. One to an IPv6 remote is told nothing.
pub proof fn law_the_client_decides_about_cutting(request: Request)
    ensures
        fragmentation_of(request) == Some(Fragmentation::Prohibited) <==> request.remote is V4
            && request.dont_fragment,
        fragmentation_of(request) == Some(Fragmentation::Permitted) <==> request.remote is V4
            && !request.dont_fragment,
        fragmentation_of(request) is None <==> request.remote is V6,
{
}

/// A request that could be sent is waited for under its remote and its sequence number, for a minute. One that could
/// not is not waited for. Only one that was too long has the error queue read, and only a failure that nobody expects
/// is reported.
pub proof fn law_only_what_was_sent_is_waited_for(
    state: RelayState,
    request: Request,
    sequence: u16,
    result: Result<(), Failure>,
    now: u64,
)
    requires
        countable(state.counters),
        now + 60_000_000_000 <= u64::MAX,
    ensures
        ({
            let (after, then) = after_send(state, request, sequence, result, now);
            let key = Key { remote: request.remote, sequence };
            &&& result is Ok ==> {
                &&& after.sessions.contains_key(key)
                &&& after.sessions[key].client == request.client
                &&& after.sessions[key].identity == request.identity
                &&& after.sessions[key].hop_limit == request.hop_limit
                &&& after.sessions[key].deadline == now + 60_000_000_000
                &&& after.counters.sent == state.counters.sent + 1
            }
            &&& result is Err ==> after.sessions == state.sessions && after.counters.sent == state.counters.sent
            &&& forall|other: Key|
                other != key ==> (after.sessions.contains_key(other) <==> #[trigger] state.sessions.contains_key(other))
            &&& forall|other: Key|
                other != key && #[trigger] state.sessions.contains_key(other) ==> after.sessions[other]
                    == state.sessions[other]
            &&& after.next_sequence == state.next_sequence
            &&& then is ReadPathMtu <==> result == Err::<(), Failure>(Failure::TooBig)
            &&& then is ReportFailure <==> result == Err::<(), Failure>(Failure::Unexpected)
        }),
{
}

/// What sending came to is counted once, under what it was.
pub proof fn law_a_send_is_counted_once(
    state: RelayState,
    request: Request,
    sequence: u16,
    result: Result<(), Failure>,
    now: u64,
)
    requires
        countable(state.counters),
    ensures
        ({
            let c = state.counters;
            let after = after_send(state, request, sequence, result, now).0.counters;
            &&& after.sent - c.sent == if result is Ok { 1int } else { 0 }
            &&& after.blocked - c.blocked == if result == Err::<(), Failure>(Failure::Blocked) { 1int } else { 0 }
            &&& after.too_big - c.too_big == if result == Err::<(), Failure>(Failure::TooBig) { 1int } else { 0 }
            &&& after.unreachable - c.unreachable == if result == Err::<(), Failure>(Failure::Unreachable) {
                1int
            } else {
                0
            }
            &&& after.send_failed - c.send_failed == if result == Err::<(), Failure>(Failure::Unexpected) {
                1int
            } else {
                0
            }
        }),
{
}

/// A reply goes to a client exactly where its socket is the current one, a request to its remote with its sequence
/// number waits and is not yet overdue, and its hop limit did not run out. It goes to whoever sent that request, and
/// with the hop limit it has left. The request is waited for no more, and every other one as before.
pub proof fn law_a_reply_goes_to_whoever_asked(
    state: RelayState,
    current: bool,
    remote: IpAddr,
    sequence: Option<u16>,
    forward: Option<u8>,
    now: u64,
)
    ensures
        ({
            let (after, found) = after_reply(state, current, remote, sequence, forward, now);
            let key = Key { remote, sequence: sequence->0 };
            let waits = current && sequence is Some && state.sessions.contains_key(key) && now
                < state.sessions[key].deadline;
            &&& found is Some <==> waits && forward is Some
            &&& found matches Some((session, hops)) ==> session == state.sessions[key] && Some(hops) == forward
            &&& after.sessions == if waits {
                state.sessions.remove(key)
            } else {
                state.sessions
            }
            &&& after.next_sequence == state.next_sequence
        }),
{
}

/// What became of a reply is counted once, under what it was, where it goes to nobody.
pub proof fn law_a_lost_reply_is_counted_once(
    state: RelayState,
    current: bool,
    remote: IpAddr,
    sequence: Option<u16>,
    forward: Option<u8>,
    now: u64,
)
    requires
        countable(state.counters),
    ensures
        ({
            let c = state.counters;
            let (after, found) = after_reply(state, current, remote, sequence, forward, now);
            let d = after.counters;
            &&& (d.stale - c.stale) + (d.unparseable - c.unparseable) + (d.unmatched - c.unmatched) + (d.expired
                - c.expired) == if found is Some { 0int } else { 1 }
            &&& d.stale - c.stale == if current { 0int } else { 1 }
            &&& d.unparseable - c.unparseable == if current && sequence is None { 1int } else { 0 }
        }),
{
}

/// What is forgotten when requests are swept are exactly those that are overdue, and as many are counted.
pub proof fn law_only_overdue_requests_are_forgotten(state: RelayState, now: u64)
    requires
        state.sessions.dom().finite(),
        state.counters.swept + state.sessions.dom().len() <= u64::MAX,
    ensures
        ({
            let after = swept_by(state, now);
            &&& forall|key: Key|
                #[trigger] after.sessions.contains_key(key) <==> state.sessions.contains_key(key) && now
                    < state.sessions[key].deadline
            &&& forall|key: Key|
                #[trigger] after.sessions.contains_key(key) ==> after.sessions[key] == state.sessions[key]
            &&& after.counters.swept - state.counters.swept == state.sessions.dom().len() - after.sessions.dom().len()
            &&& after.next_sequence == state.next_sequence
        }),
{
    let after = swept_by(state, now);
    assert(after.sessions.dom().subset_of(state.sessions.dom()));
    vstd::set_lib::lemma_len_subset(after.sessions.dom(), state.sessions.dom());
}

/// A request goes with a sequence number that no request to its remote has yet, and the search goes on behind it the
/// next time. Where the number that is next is free it is that. Nothing else of the relay changes. Only where all 65536
/// are taken is there none, and that is counted.
pub proof fn law_a_request_gets_a_number_of_its_own(
    before: RelayState,
    remote: IpAddr,
    after: RelayState,
    r: Option<u16>,
)
    requires
        allocated(before, remote, after, r),
        countable(before.counters),
    ensures
        after.sessions == before.sessions,
        match r {
            Some(sequence) => {
                &&& !before.sessions.contains_key(Key { remote, sequence })
                &&& !before.sessions.contains_key(Key { remote, sequence: before.next_sequence }) ==> sequence
                    == before.next_sequence
                &&& after.next_sequence == if sequence == 65_535 {
                    0int
                } else {
                    sequence + 1
                }
                &&& after.counters == before.counters
            },
            None => {
                &&& forall|sequence: u16|
                    #![trigger before.sessions.contains_key(Key { remote, sequence })]
                    before.sessions.contains_key(Key { remote, sequence })
                &&& after.next_sequence == before.next_sequence
                &&& after.counters.exhausted == before.counters.exhausted + 1
            },
        },
{
    if let Some(sequence) = r {
        let k = choose|k: int|
            {
                &&& #[trigger] first_free(before.sessions, remote, before.next_sequence, k)
                &&& sequence == sequence_after(before.next_sequence, k)
                &&& after == (RelayState {
                    next_sequence: sequence_after(before.next_sequence, k + 1),
                    ..before
                })
            };
        law_a_free_number_is_found_in_turn(before.sessions, remote, before.next_sequence, k);
    } else {
        assert forall|sequence: u16|
            #![trigger before.sessions.contains_key(Key { remote, sequence })]
            before.sessions.contains_key(Key { remote, sequence }) by {
            assert(taken(before.sessions, remote, sequence));
        }
    }
}

/// An error of the upstream that quotes a request goes to whoever sent the request, where the request is the only one
/// of its family with that number whose time is not over, and the error came over the same family. The request is not
/// waited for any more.
pub proof fn law_an_error_goes_to_whoever_asked(
    before: RelayState,
    after: RelayState,
    ipv6: bool,
    quoted: u16,
    now: u64,
    r: Option<(IpAddr, Session)>,
    remote: IpAddr,
)
    requires
        repeated(before, after, true, ipv6, Some(quoted), ipv6, now, r),
        (remote is V6) == ipv6,
        before.sessions.contains_key(Key { remote, sequence: quoted }),
        now < before.sessions[Key { remote, sequence: quoted }].deadline,
        forall|other: IpAddr|
            #![trigger before.sessions.contains_key(Key { remote: other, sequence: quoted })]
            other != remote && (other is V6) == ipv6 && before.sessions.contains_key(
                Key { remote: other, sequence: quoted },
            ) ==> before.sessions[Key { remote: other, sequence: quoted }].deadline <= now,
    ensures
        r == Some((remote, before.sessions[Key { remote, sequence: quoted }])),
        !after.sessions.contains_key(Key { remote, sequence: quoted }),
{
    let swept = swept_by(before, now);
    let found = choose|found: Found|
        {
            &&& #[trigger] took_only(swept.sessions, after.sessions, Some(ipv6), quoted, found)
            &&& after.next_sequence == before.next_sequence
            &&& match found {
                Found::One { remote, session } => r == Some((remote, session)),
                _ => r is None,
            }
        };
    assert forall|other: IpAddr|
        #![trigger swept.sessions.contains_key(Key { remote: other, sequence: quoted })]
        other != remote && (other is V6) == ipv6 implies !swept.sessions.contains_key(
        Key { remote: other, sequence: quoted },
    ) by {
        assert(before.sessions.contains_key(Key { remote: other, sequence: quoted }) ==> before.sessions[Key {
            remote: other,
            sequence: quoted,
        }].deadline <= now);
    }
    law_the_only_request_is_taken(swept.sessions, after.sessions, ipv6, quoted, found, remote);
}

/// An error goes to nobody unless it is current, quotes a request, and came over the family that it is about. Whoever
/// it goes to was being waited for under the number that it quotes, in that family.
pub proof fn law_an_error_goes_to_nobody_else(
    before: RelayState,
    after: RelayState,
    current: bool,
    ipv6: bool,
    quoted: Option<u16>,
    from_ipv6: bool,
    now: u64,
    r: Option<(IpAddr, Session)>,
)
    requires
        repeated(before, after, current, ipv6, quoted, from_ipv6, now, r),
        r is Some,
    ensures
        current,
        quoted is Some,
        from_ipv6 == ipv6,
        ((r->0).0 is V6) == ipv6,
        before.sessions.contains_key(Key { remote: (r->0).0, sequence: quoted->0 }),
        (r->0).1 == before.sessions[Key { remote: (r->0).0, sequence: quoted->0 }],
        now < (r->0).1.deadline,
        after.next_sequence == before.next_sequence,
{
    let swept = swept_by(before, now);
    let found = choose|found: Found|
        {
            &&& #[trigger] took_only(swept.sessions, after.sessions, Some(ipv6), quoted->0, found)
            &&& after.next_sequence == before.next_sequence
            &&& match found {
                Found::One { remote, session } => if from_ipv6 == ipv6 {
                    r == Some((remote, session))
                } else {
                    r is None
                },
                _ => r is None,
            }
        };
    assert(candidate(swept.sessions, Some(ipv6), (r->0).0, quoted->0));
}

/// An error that goes to nobody is counted once, for why: it was stale, it could not be read, it came over the other
/// family, or no request or more than one has the number that it quotes.
pub proof fn law_a_lost_error_is_counted_once(
    before: RelayState,
    after: RelayState,
    current: bool,
    ipv6: bool,
    quoted: Option<u16>,
    from_ipv6: bool,
    now: u64,
    r: Option<(IpAddr, Session)>,
)
    requires
        repeated(before, after, current, ipv6, quoted, from_ipv6, now, r),
        countable(before.counters),
    ensures
        ({
            let c = before.counters;
            let d = after.counters;
            let lost = (d.stale - c.stale) + (d.unparseable - c.unparseable) + (d.implausible - c.implausible) + (
            d.ambiguous - c.ambiguous) + (d.unmatched - c.unmatched);
            &&& lost == if r is None {
                1int
            } else {
                0
            }
            &&& (d.stale - c.stale == 1) == !current
            &&& (d.unparseable - c.unparseable == 1) == (current && quoted is None)
            &&& d.implausible - c.implausible == 1 ==> current && from_ipv6 != ipv6
            &&& from_ipv6 == ipv6 ==> d.implausible == c.implausible
            &&& d.sent == c.sent
            &&& d.reported == c.reported
            &&& d.unreported == c.unreported
            &&& d.translated == c.translated
            &&& d.untranslated == c.untranslated
            &&& d.expired == c.expired
        }),
{
    if current && quoted is Some {
        let swept = swept_by(before, now);
        let s = swept.counters;
        let found = choose|found: Found|
            {
                &&& #[trigger] took_only(swept.sessions, after.sessions, Some(ipv6), quoted->0, found)
                &&& after.next_sequence == before.next_sequence
                &&& match found {
                    Found::One { remote, session } => if from_ipv6 == ipv6 {
                        r == Some((remote, session)) && after.counters == s
                    } else {
                        r is None && after.counters == Counters { implausible: (s.implausible + 1) as u64, ..s }
                    },
                    Found::Ambiguous => r is None && after.counters == Counters {
                        ambiguous: (s.ambiguous + 1) as u64,
                        ..s
                    },
                    Found::Missing => r is None && after.counters == Counters {
                        unmatched: (s.unmatched + 1) as u64,
                        ..s
                    },
                }
            };
        assert(found is One || found is Ambiguous || found is Missing);
    }
}

/// What was counted is told counter by counter, each with its own name before it, in one order.
pub proof fn law_counters_are_told_by_name(c: Counters)
    ensures
        counters_text(c) == listed(
            seq![
                ("sent "@, c.sent as nat),
                (" queued "@, c.queued as nat),
                (" unqueued "@, c.unqueued as nat),
                (" denied "@, c.denied as nat),
                (" expired "@, c.expired as nat),
                (" too-big "@, c.too_big as nat),
                (" blocked "@, c.blocked as nat),
                (" unreachable "@, c.unreachable as nat),
                (" send-failed "@, c.send_failed as nat),
                (" reported "@, c.reported as nat),
                (" unreported "@, c.unreported as nat),
                (" df-failed "@, c.df_failed as nat),
                (" open-failed "@, c.open_failed as nat),
                (" exhausted "@, c.exhausted as nat),
                (" unmatched "@, c.unmatched as nat),
                (" unparseable "@, c.unparseable as nat),
                (" translated "@, c.translated as nat),
                (" untranslated "@, c.untranslated as nat),
                (" ambiguous "@, c.ambiguous as nat),
                (" implausible "@, c.implausible as nat),
                (" stale "@, c.stale as nat),
                (" swept "@, c.swept as nat),
            ],
            22,
        ),
{
    reveal_with_fuel(listed, 23);
    assert(Seq::<char>::empty() + "sent "@ =~= "sent "@);
}

} // verus!
