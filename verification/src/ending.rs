//! How reporting ends: step after step, in one order.
use vstd::prelude::*;

use crate::nonfatal::{nonfatal_views, tellings, NonfatalReport, NonfatalState, WaitingState};
use crate::reporter::{ended_text, released, Registration, Reporter, ReporterState, Shutdown};

verus! {

/// What the end of a reporter waits for.
#[derive(Debug, Clone, Copy, PartialEq, Eq, Structural)]
pub enum Stage {
    /// That the task which tells what waits was cancelled.
    Cancel,
    /// That no emission is under way any more.
    Drain,
    /// That the task has ended.
    Join,
    /// A place in the writer's queue for the next report.
    Place,
    /// Whether the writer took the report.
    Tell,
    /// Nothing: reporting has ended.
    Over,
}

/// What is to be done next.
#[derive(Debug)]
pub enum Step {
    /// The task that tells what waits is cancelled.
    Cancel,
    /// The emissions under way are waited for.
    Drain,
    /// The task is waited for.
    Join,
    /// A place in the writer's queue is waited for and taken.
    Place,
    /// A report is handed to the writer, with the place that was taken for it.
    Tell(NonfatalReport),
    /// Whoever waits for the end is told.
    Announce,
    /// Nothing.
    Nothing,
}

/// What is to be done next, report by report.
#[verifier::ext_equal]
pub enum StepState {
    Cancel,
    Drain,
    Join,
    Place,
    Tell(NonfatalState),
    Announce,
    Nothing,
}

impl View for Step {
    type V = StepState;

    open spec fn view(&self) -> StepState {
        match *self {
            Step::Cancel => StepState::Cancel,
            Step::Drain => StepState::Drain,
            Step::Join => StepState::Join,
            Step::Place => StepState::Place,
            Step::Tell(report) => StepState::Tell(report@),
            Step::Announce => StepState::Announce,
            Step::Nothing => StepState::Nothing,
        }
    }
}

/// What happened.
#[derive(Debug)]
pub enum Event {
    Cancelled,
    Drained,
    /// The task has ended, with this failure where it failed.
    Joined(Option<String>),
    Placed,
    /// The writer took the report, or it did not.
    Told(bool),
}

/// The end of a reporter.
pub struct Ending {
    stage: Stage,
    left: Vec<NonfatalReport>,
    failure: Option<String>,
}

/// How far the end of a reporter has come.
#[verifier::ext_equal]
pub struct EndingState {
    pub stage: Stage,
    /// What is still to be told, the longest waiting first.
    pub left: Seq<NonfatalState>,
    /// How the task failed.
    pub failure: Option<Seq<char>>,
}

impl View for Ending {
    type V = EndingState;

    closed spec fn view(&self) -> EndingState {
        EndingState {
            stage: self.stage,
            left: nonfatal_views(self.left@),
            failure: match self.failure {
                Some(failure) => Some(failure@),
                None => None,
            },
        }
    }
}

/// What the end waits for once the task has ended or a report was told: a place for the next report, or nothing.
pub open spec fn next_stage(left: Seq<NonfatalState>) -> Stage {
    if left.len() > 0 {
        Stage::Place
    } else {
        Stage::Over
    }
}

/// What an event changes: how far the end has come, and what is to be done next. Only what is waited for changes
/// anything.
pub open spec fn ended_by(s: EndingState, event: Event) -> (EndingState, StepState) {
    match (s.stage, event) {
        (Stage::Cancel, Event::Cancelled) => (EndingState { stage: Stage::Drain, ..s }, StepState::Drain),
        (Stage::Drain, Event::Drained) => (EndingState { stage: Stage::Join, ..s }, StepState::Join),
        (Stage::Join, Event::Joined(failure)) => (
            EndingState {
                stage: next_stage(s.left),
                failure: match failure {
                    Some(failure) => Some(failure@),
                    None => None,
                },
                ..s
            },
            if s.left.len() > 0 {
                StepState::Place
            } else {
                StepState::Announce
            },
        ),
        (Stage::Place, Event::Placed) => (
            EndingState { stage: Stage::Tell, left: s.left.skip(1), ..s },
            StepState::Tell(s.left[0]),
        ),
        (Stage::Tell, Event::Told(_)) => (
            EndingState { stage: next_stage(s.left), ..s },
            if s.left.len() > 0 {
                StepState::Place
            } else {
                StepState::Announce
            },
        ),
        _ => (s, StepState::Nothing),
    }
}

/// The reporter after an event: a report that the writer did not take is counted.
pub open spec fn reporter_after(s: EndingState, reporter: ReporterState, event: Event) -> ReporterState {
    match (s.stage, event) {
        (Stage::Tell, Event::Told(false)) => ReporterState {
            undelivered: (reporter.undelivered + 1) as usize,
            ..reporter
        },
        _ => reporter,
    }
}

/// Whether there is something to be told where a place is waited for.
pub open spec fn ending_wf(s: EndingState) -> bool {
    s.stage is Place ==> s.left.len() > 0
}

impl Ending {
    /// Begins the end of a reporter: nothing is taken any more, and what waits is kept to be told last.
    pub fn begin(reporter: &mut Reporter) -> (r: (Self, Step))
        ensures
            ending_wf(r.0@),
            r.0@ == (EndingState {
                stage: Stage::Cancel,
                left: tellings(old(reporter)@.waiting, old(reporter)@.waiting.len()),
                failure: None,
            }),
            r.1@ == StepState::Cancel,
            final(reporter)@ == (ReporterState {
                closed: true,
                waiting: Seq::<WaitingState>::empty(),
                ..old(reporter)@
            }),
    {
        let left = reporter.close_and_flush();
        (Ending { stage: Stage::Cancel, left, failure: None }, Step::Cancel)
    }

    /// What the end waits for.
    pub fn stage(&self) -> (r: Stage)
        ensures
            r == self@.stage,
    {
        self.stage
    }

    /// Takes what happened, and says what is to be done next. The outcome is stored, and the registration given up,
    /// in one step, before anybody is told.
    pub fn advance(
        &mut self,
        reporter: &mut Reporter,
        shutdown: &mut Shutdown,
        registration: &mut Registration,
        number: u64,
        event: Event,
    ) -> (r: Step)
        requires
            ending_wf(old(self)@),
            old(reporter)@.undelivered < usize::MAX,
        ensures
            ending_wf(final(self)@),
            (final(self)@, r@) == ended_by(old(self)@, event),
            final(reporter)@ == reporter_after(old(self)@, old(reporter)@, event),
            final(shutdown).running == old(shutdown).running,
            if r@ is Announce {
                &&& *final(registration) == released(*old(registration), number)
                &&& final(shutdown).outcome is Some
                &&& match ended_text(final(reporter)@, final(self)@.failure) {
                    None => final(shutdown).outcome->0 is Ok,
                    Some(text) => final(shutdown).outcome->0 matches Err(failure) && failure@ == text,
                }
            } else {
                &&& *final(registration) == *old(registration)
                &&& final(shutdown).outcome == old(shutdown).outcome
            },
    {
        let ghost before = self@;
        match (self.stage, event) {
            (Stage::Cancel, Event::Cancelled) => {
                self.stage = Stage::Drain;
                Step::Drain
            },
            (Stage::Drain, Event::Drained) => {
                self.stage = Stage::Join;
                Step::Join
            },
            (Stage::Join, Event::Joined(failure)) => {
                self.failure = failure;
                self.further(reporter, shutdown, registration, number)
            },
            (Stage::Place, Event::Placed) => {
                self.stage = Stage::Tell;
                assert(nonfatal_views(self.left@)[0] == self.left@[0]@);
                let ghost all = self.left@;
                let report = self.left.remove(0);
                assert(nonfatal_views(self.left@) =~= nonfatal_views(all).skip(1));
                assert(self@ =~= ended_by(before, Event::Placed).0);
                Step::Tell(report)
            },
            (Stage::Tell, Event::Told(taken)) => {
                reporter.delivered(taken);
                self.further(reporter, shutdown, registration, number)
            },
            _ => Step::Nothing,
        }
    }

    /// Goes on to the next report, or ends.
    fn further(
        &mut self,
        reporter: &Reporter,
        shutdown: &mut Shutdown,
        registration: &mut Registration,
        number: u64,
    ) -> (r: Step)
        ensures
            final(self)@ == (EndingState { stage: next_stage(old(self)@.left), ..old(self)@ }),
            final(shutdown).running == old(shutdown).running,
            if old(self)@.left.len() > 0 {
                &&& r@ == StepState::Place
                &&& *final(registration) == *old(registration)
                &&& final(shutdown).outcome == old(shutdown).outcome
            } else {
                &&& r@ == StepState::Announce
                &&& *final(registration) == released(*old(registration), number)
                &&& final(shutdown).outcome is Some
                &&& match ended_text(reporter@, old(self)@.failure) {
                    None => final(shutdown).outcome->0 is Ok,
                    Some(text) => final(shutdown).outcome->0 matches Err(failure) && failure@ == text,
                }
            },
    {
        if self.left.len() > 0 {
            self.stage = Stage::Place;
            return Step::Place;
        }
        self.stage = Stage::Over;
        let failure = match &self.failure {
            Some(failure) => Some(failure.as_str().to_owned()),
            None => None,
        };
        shutdown.outcome = Some(reporter.ended(failure));
        registration.release(number);
        Step::Announce
    }
}

/// How many steps a reporter's end has behind it, where `all` is what there was to be told.
pub open spec fn behind(s: EndingState, all: nat) -> int {
    match s.stage {
        Stage::Cancel => 0,
        Stage::Drain => 1,
        Stage::Join => 2,
        Stage::Place => 3 + 2 * (all - s.left.len()),
        Stage::Tell => 4 + 2 * (all - s.left.len() - 1),
        Stage::Over => 3 + 2 * all as int,
    }
}

/// Where a reporter's end can stand when there were `all` reports to be told.
pub open spec fn on_course(s: EndingState, all: nat) -> bool {
    &&& ending_wf(s)
    &&& s.left.len() <= all
    &&& s.stage is Tell ==> s.left.len() < all
    &&& s.stage is Cancel || s.stage is Drain || s.stage is Join ==> s.left.len() == all
    &&& s.stage is Over ==> s.left.len() == 0
}

/// Reporting ends in one order: it is closed and what waits is kept, the task is cancelled, the emissions are waited
/// for, then the task, then each report is told in its turn once there is a place for it, and only then is the outcome
/// announced. An event takes the end one step further or nowhere, and nothing takes it back.
pub proof fn law_reporting_ends_in_one_order(s: EndingState, event: Event, all: nat)
    requires
        on_course(s, all),
    ensures
        ({
            let (after, step) = ended_by(s, event);
            &&& on_course(after, all)
            &&& step is Nothing <==> behind(after, all) == behind(s, all)
            &&& !(step is Nothing) ==> behind(after, all) == behind(s, all) + 1
            &&& step is Announce <==> after.stage is Over && !(s.stage is Over)
            &&& step is Announce ==> after.left.len() == 0
            &&& !(step is Tell) ==> after.left == s.left
            &&& step matches StepState::Tell(report) ==> s.left.len() > 0 && report == s.left[0] && after.left
                == s.left.skip(1)
        }),
{
}

/// Reporting ends step by step: what runs is cancelled, it drains, it is joined, and each report that is left is told
/// in its turn, for a place of its own. After the last the end is announced. A failure that joining showed is kept.
pub proof fn law_each_step_leads_to_the_next(s: EndingState, failure: Option<String>, told: bool)
    ensures
        s.stage is Cancel ==> ended_by(s, Event::Cancelled).1 is Drain && ended_by(s, Event::Cancelled).0.stage
            is Drain,
        s.stage is Drain ==> ended_by(s, Event::Drained).1 is Join && ended_by(s, Event::Drained).0.stage is Join,
        s.stage is Join && s.left.len() > 0 ==> ended_by(s, Event::Joined(failure)).1 is Place && ended_by(
            s,
            Event::Joined(failure),
        ).0.stage is Place,
        s.stage is Join && s.left.len() == 0 ==> ended_by(s, Event::Joined(failure)).1 is Announce && ended_by(
            s,
            Event::Joined(failure),
        ).0.stage is Over,
        s.stage is Join && failure is Some ==> ended_by(s, Event::Joined(failure)).0.failure == Some(failure->0@),
        s.stage is Join && failure is None ==> ended_by(s, Event::Joined(failure)).0.failure is None,
        s.stage is Place && s.left.len() > 0 ==> ended_by(s, Event::Placed).1 == StepState::Tell(s.left[0]) && ended_by(
            s,
            Event::Placed,
        ).0.stage is Tell,
        s.stage is Tell && s.left.len() > 0 ==> ended_by(s, Event::Told(told)).1 is Place,
        s.stage is Tell && s.left.len() == 0 ==> ended_by(s, Event::Told(told)).1 is Announce && ended_by(
            s,
            Event::Told(told),
        ).0.stage is Over,
        s.stage is Over ==> ended_by(s, Event::Told(told)) == (s, StepState::Nothing),
{
}

/// A report that could not be told at the end is counted as undelivered, once, and nothing else is.
pub proof fn law_only_what_was_not_told_is_undelivered(s: EndingState, reporter: ReporterState, event: Event)
    requires
        reporter.undelivered < usize::MAX,
    ensures
        ({
            let after = reporter_after(s, reporter, event);
            &&& after.undelivered - reporter.undelivered == if s.stage is Tell && event == Event::Told(false) {
                1int
            } else {
                0
            }
            &&& after.waiting == reporter.waiting
            &&& after.closed == reporter.closed
            &&& after.available == reporter.available
            &&& after.emitting == reporter.emitting
        }),
{
}

} // verus!
