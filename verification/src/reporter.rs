//! Who reports failures that end no call, how many may be under way, and how reporting ends.
use vstd::prelude::*;

use crate::nonfatal::{
    fitting, nonfatal_views, offered, tellings, NonfatalReport, NonfatalState,
    SourceCoalescer, WaitingState,
};
use crate::protocol::{plain_error, DaemonErrorReport, ErrorKind, IoError};
use crate::text::{decimal, push_decimal};

verus! {

/// What became of a report.
#[derive(Debug)]
pub enum Pushed {
    Coalesced,
    Closed(DaemonErrorReport),
}

/// What a reporter knows: what waits, how many places the writer's queue has left, how many emissions are under
/// way, and how many reports the writer did not take.
pub struct Reporter {
    coalescer: SourceCoalescer,
    closed: bool,
    available: usize,
    emitting: usize,
    undelivered: usize,
}

/// What a reporter knows.
#[verifier::ext_equal]
pub struct ReporterState {
    pub waiting: Seq<WaitingState>,
    pub closed: bool,
    pub available: usize,
    pub emitting: usize,
    pub undelivered: usize,
}

impl View for Reporter {
    type V = ReporterState;

    closed spec fn view(&self) -> ReporterState {
        ReporterState {
            waiting: self.coalescer@,
            closed: self.closed,
            available: self.available,
            emitting: self.emitting,
            undelivered: self.undelivered,
        }
    }
}

/// A reporter that hands `n` reports to its writer: each takes a place, and until the writer has been told of all
/// of them the emission is under way.
pub open spec fn handing(state: ReporterState, n: nat) -> ReporterState {
    if n == 0 {
        state
    } else {
        ReporterState {
            available: (state.available - n) as usize,
            emitting: (state.emitting + 1) as usize,
            ..state
        }
    }
}

impl Reporter {
    /// A reporter whose writer has `handoff` places.
    pub fn new(handoff: usize) -> (r: Self)
        ensures
            r@ == (ReporterState {
                waiting: Seq::<WaitingState>::empty(),
                closed: false,
                available: handoff,
                emitting: 0,
                undelivered: 0,
            }),
    {
        Reporter {
            coalescer: SourceCoalescer::new(),
            closed: false,
            available: handoff,
            emitting: 0,
            undelivered: 0,
        }
    }

    fn hand(&mut self, n: usize)
        requires
            n <= old(self)@.available,
            old(self)@.emitting < usize::MAX,
        ensures
            final(self)@ == handing(old(self)@, n as nat),
    {
        if n > 0 {
            self.available -= n;
            self.emitting += 1;
        }
    }

    /// Takes a report, unless the reporter has closed. The ready ones come back, each with its place taken, and
    /// whether something waits now where nothing did.
    pub fn push(&mut self, call_id: Option<u64>, report: DaemonErrorReport) -> (r: (
        Pushed,
        Vec<NonfatalReport>,
        bool,
    ))
        requires
            old(self)@.emitting < usize::MAX,
        ensures
            if old(self)@.closed {
                &&& r.0 == Pushed::Closed(report)
                &&& r.1@.len() == 0
                &&& !r.2
                &&& final(self)@ == old(self)@
            } else {
                let (waiting, ready) = offered(
                    old(self)@.waiting,
                    NonfatalState { call_id, report: report@ },
                    old(self)@.available as nat,
                );
                &&& r.0 is Coalesced
                &&& nonfatal_views(r.1@) == ready
                &&& r.2 == (old(self)@.waiting.len() == 0 && waiting.len() > 0)
                &&& final(self)@ == handing(ReporterState { waiting, ..old(self)@ }, ready.len())
            },
    {
        if self.closed {
            return (Pushed::Closed(report), Vec::new(), false);
        }
        let room = self.available;
        let (ready, wake) = self.coalescer.push(call_id, report, room);
        assert(nonfatal_views(ready@).len() <= room);
        self.hand(ready.len());
        (Pushed::Coalesced, ready, wake)
    }

    /// Tells as many of those that wait as there are places, the longest waiting first.
    pub fn emit(&mut self) -> (r: Vec<NonfatalReport>)
        requires
            old(self)@.emitting < usize::MAX,
        ensures
            ({
                let n = fitting(old(self)@.waiting, old(self)@.available as nat);
                &&& nonfatal_views(r@) == tellings(old(self)@.waiting, n)
                &&& final(self)@ == handing(
                    ReporterState { waiting: old(self)@.waiting.skip(n as int), ..old(self)@ },
                    n,
                )
            }),
    {
        let room = self.available;
        let ready = self.coalescer.emit(room);
        assert(nonfatal_views(ready@).len() <= room);
        self.hand(ready.len());
        ready
    }

    /// Whether anything waits for a place.
    pub fn has_pending(&self) -> (r: bool)
        ensures
            r == (self@.waiting.len() > 0),
    {
        self.coalescer.has_pending()
    }

    /// A place in the writer's queue, where there is one.
    pub fn take(&mut self) -> (r: bool)
        ensures
            r == (old(self)@.available > 0),
            final(self)@ == if r {
                ReporterState { available: (old(self)@.available - 1) as usize, ..old(self)@ }
            } else {
                old(self)@
            },
    {
        if self.available > 0 {
            self.available -= 1;
            true
        } else {
            false
        }
    }

    /// Gives a place in the writer's queue back.
    pub fn freed(&mut self)
        requires
            old(self)@.available < usize::MAX,
        ensures
            final(self)@ == (ReporterState {
                available: (old(self)@.available + 1) as usize,
                ..old(self)@
            }),
    {
        self.available += 1;
    }

    /// Notes whether the writer took a report.
    pub fn delivered(&mut self, taken: bool)
        requires
            old(self)@.undelivered < usize::MAX,
        ensures
            final(self)@ == if taken {
                old(self)@
            } else {
                ReporterState { undelivered: (old(self)@.undelivered + 1) as usize, ..old(self)@ }
            },
    {
        if !taken {
            self.undelivered += 1;
        }
    }

    /// Notes that an emission is over. Says whether it was the last under way.
    pub fn emission_over(&mut self) -> (r: bool)
        requires
            old(self)@.emitting > 0,
        ensures
            final(self)@ == (ReporterState { emitting: (old(self)@.emitting - 1) as usize, ..old(self)@ }),
            r == (old(self)@.emitting == 1),
    {
        self.emitting -= 1;
        self.emitting == 0
    }

    /// Whether no emission is under way.
    pub fn drained(&self) -> (r: bool)
        ensures
            r == (self@.emitting == 0),
    {
        self.emitting == 0
    }

    /// Closes the reporter without telling what waits.
    pub fn close(&mut self)
        ensures
            final(self)@ == (ReporterState { closed: true, ..old(self)@ }),
    {
        self.closed = true;
    }

    /// Closes the reporter. What waits comes back; each of it is owed a place.
    pub fn close_and_flush(&mut self) -> (r: Vec<NonfatalReport>)
        ensures
            final(self)@ == (ReporterState {
                closed: true,
                waiting: Seq::<WaitingState>::empty(),
                ..old(self)@
            }),
            nonfatal_views(r@) == tellings(old(self)@.waiting, old(self)@.waiting.len()),
    {
        self.closed = true;
        self.coalescer.flush()
    }

    /// How reporting ended, with what became of the task that told what waited: its failure, else how many
    /// reports were not taken, else nothing.
    pub fn ended(&self, drain_failure: Option<String>) -> (r: Result<(), String>)
        ensures
            match ended_text(
                self@,
                match drain_failure {
                    Some(e) => Some(e@),
                    None => None,
                },
            ) {
                Some(text) => r matches Err(failure) && failure@ == text,
                None => r is Ok,
            },
    {
        if let Some(e) = drain_failure {
            let mut failure = "the pending-report drain task failed: ".to_owned();
            failure.append(e.as_str());
            return Err(failure);
        }
        if self.undelivered > 0 {
            let mut failure = String::new();
            push_decimal(&mut failure, self.undelivered as u64);
            failure.append(" nonfatal reports could not be delivered to the controller");
            proof {
                assert(Seq::<char>::empty() + decimal(self@.undelivered as nat) =~= decimal(
                    self@.undelivered as nat,
                ));
            }
            return Err(failure);
        }
        Ok(())
    }
}

/// What is told of how reporting ended, where it ended in a failure: that of the task that told what waited, else how
/// many reports were not taken.
pub open spec fn ended_text(reporter: ReporterState, drain_failure: Option<Seq<char>>) -> Option<Seq<char>> {
    match drain_failure {
        Some(e) => Some("the pending-report drain task failed: "@ + e),
        None => if reporter.undelivered > 0 {
            Some(
                decimal(reporter.undelivered as nat)
                    + " nonfatal reports could not be delivered to the controller"@,
            )
        } else {
            None
        },
    }
}

/// No place is made or lost when reports are handed over: what is left and what was taken is what there was.
pub proof fn law_places_are_kept(state: ReporterState, n: nat)
    requires
        n <= state.available,
        state.emitting < usize::MAX,
    ensures
        handing(state, n).available + n == state.available,
        n > 0 ==> handing(state, n).emitting == state.emitting + 1,
        n == 0 ==> handing(state, n) == state,
{
}

/// Which reporter is installed and which is ending, by number.
#[derive(Debug, Clone, Copy, PartialEq, Eq, Structural)]
pub struct Registration {
    pub current: Option<u64>,
    pub closing: Option<u64>,
}

/// Whether a reporter can be installed, where `alive` says whether the installed one still exists.
pub open spec fn may_install(registration: Registration, alive: bool) -> bool {
    (registration.current is None || !alive) && registration.closing is None
}

/// A registration without a reporter that was installed.
pub open spec fn without_current(registration: Registration, reporter: u64) -> Registration {
    Registration {
        current: if registration.current == Some(reporter) { None } else { registration.current },
        closing: registration.closing,
    }
}

/// A registration after a reporter began to end.
pub open spec fn finishing(registration: Registration, reporter: u64) -> Registration {
    Registration {
        current: without_current(registration, reporter).current,
        closing: if registration.closing is None { Some(reporter) } else { registration.closing },
    }
}

/// A registration after a reporter ended.
pub open spec fn released(registration: Registration, reporter: u64) -> Registration {
    Registration {
        current: without_current(registration, reporter).current,
        closing: if registration.closing == Some(reporter) { None } else { registration.closing },
    }
}

/// There is one reporter at a time: while the installed one exists or is ending no other is installed, and once
/// it has ended the next one can be.
pub proof fn law_one_reporter_at_a_time(reporter: u64, alive: bool)
    ensures
        ({
            let installed = Registration { current: Some(reporter), closing: None };
            &&& !may_install(installed, true)
            &&& !may_install(finishing(installed, reporter), alive)
            &&& may_install(released(finishing(installed, reporter), reporter), alive)
        }),
{
}

impl Registration {
    /// Nobody reports.
    pub fn new() -> (r: Self)
        ensures
            r == (Registration { current: None, closing: None }),
    {
        Registration { current: None, closing: None }
    }

    /// Installs a reporter, unless one is installed or still ending. `alive` says whether the installed one still
    /// exists.
    pub fn install(&mut self, reporter: u64, alive: bool) -> (r: Result<(), IoError>)
        ensures
            match r {
                Ok(_) => {
                    &&& may_install(*old(self), alive)
                    &&& *final(self) == (Registration { current: Some(reporter), closing: None })
                },
                Err(error) => {
                    &&& !may_install(*old(self), alive)
                    &&& error@ == plain_error(ErrorKind::Other, "nonfatal reporter already installed"@)
                    &&& *final(self) == *old(self)
                },
            },
    {
        if (self.current.is_some() && alive) || self.closing.is_some() {
            return Err(IoError::other("nonfatal reporter already installed"));
        }
        self.current = Some(reporter);
        Ok(())
    }

    fn clear_current(&mut self, reporter: u64)
        ensures
            *final(self) == without_current(*old(self), reporter),
    {
        if let Some(current) = self.current {
            if current == reporter {
                self.current = None;
            }
        }
    }

    /// A reporter begins to end: it is installed no more, but nobody follows it yet.
    pub fn begin_finish(&mut self, reporter: u64)
        ensures
            *final(self) == finishing(*old(self), reporter),
    {
        self.clear_current(reporter);
        if self.closing.is_none() {
            self.closing = Some(reporter);
        }
    }

    /// A reporter has ended.
    pub fn release(&mut self, reporter: u64)
        ensures
            *final(self) == released(*old(self), reporter),
    {
        self.clear_current(reporter);
        if let Some(closing) = self.closing {
            if closing == reporter {
                self.closing = None;
            }
        }
    }
}

/// How far a reporter's end has come.
#[derive(Debug)]
pub struct Shutdown {
    pub running: bool,
    pub outcome: Option<Result<(), String>>,
}

/// What is to be done about a reporter's end.
#[derive(Debug, Clone, Copy, PartialEq, Eq, Structural)]
pub enum Finalizing {
    /// It has ended.
    Over,
    /// It is ending.
    UnderWay,
    /// Nothing can run its end: it is closed and cancelled where it stands.
    Abandon,
    /// Its end is to be run now.
    Run,
}

impl Shutdown {
    /// What is to be done about a reporter's end. Its end is run once; all that is done before it has ended
    /// takes it out of its registration.
    pub fn finalize(
        &mut self,
        registration: &mut Registration,
        reporter: u64,
        runtime: bool,
    ) -> (r: Finalizing)
        ensures
            final(self).outcome == old(self).outcome,
            r == (if old(self).outcome is Some {
                Finalizing::Over
            } else if old(self).running {
                Finalizing::UnderWay
            } else if !runtime {
                Finalizing::Abandon
            } else {
                Finalizing::Run
            }),
            final(self).running == (old(self).running || r is Run),
            *final(registration) == if r is Over {
                *old(registration)
            } else {
                finishing(*old(registration), reporter)
            },
    {
        if self.outcome.is_some() {
            return Finalizing::Over;
        }
        registration.begin_finish(reporter);
        if self.running {
            return Finalizing::UnderWay;
        }
        if !runtime {
            return Finalizing::Abandon;
        }
        self.running = true;
        Finalizing::Run
    }
}

/// Reports that could not be delivered are told when a reporter ends, with how many they were, and so is a drain that
/// failed, which comes first. A reporter that delivered everything ends without a word.
pub proof fn law_undelivered_reports_are_told(reporter: ReporterState, failure: Seq<char>)
    ensures
        ended_text(reporter, None) is None <==> reporter.undelivered == 0,
        reporter.undelivered > 0 ==> ended_text(reporter, None) == Some(
            decimal(reporter.undelivered as nat) + " nonfatal reports could not be delivered to the controller"@,
        ),
        ended_text(reporter, Some(failure)) == Some("the pending-report drain task failed: "@ + failure),
{
}

/// A reporter may be installed exactly where none is alive and none is closing. One that finishes is the current one no
/// longer, and closes unless another does. One that is released is neither current nor closing. What is noted of
/// another reporter stays.
pub proof fn law_a_reporter_closes_before_the_next(registration: Registration, reporter: u64, alive: bool)
    ensures
        may_install(registration, alive) <==> registration.closing is None && (registration.current is None || !alive),
        ({
            let after = finishing(registration, reporter);
            &&& after.current != Some(reporter)
            &&& registration.current != Some(reporter) ==> after.current == registration.current
            &&& registration.closing is None ==> after.closing == Some(reporter)
            &&& registration.closing is Some ==> after.closing == registration.closing
        }),
        ({
            let after = released(registration, reporter);
            &&& after.current != Some(reporter)
            &&& after.closing != Some(reporter)
            &&& registration.current != Some(reporter) ==> after.current == registration.current
            &&& registration.closing != Some(reporter) ==> after.closing == registration.closing
        }),
        ({
            let after = without_current(registration, reporter);
            &&& after.current != Some(reporter)
            &&& registration.current != Some(reporter) ==> after.current == registration.current
            &&& after.closing == registration.closing
        }),
{
}

} // verus!
