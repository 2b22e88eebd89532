//! One turn of a reply socket: readiness, then a slot, then one message.
use vstd::prelude::*;

use crate::protocol::IoError;
use crate::reply_bound::{disposition, slot_for, Disposition, Drained, Readiness, Turned};

verus! {

/// How many replies wait for a session.
pub const MAILBOX: usize = 1;

/// What a turn waits for.
#[derive(Debug, Clone, Copy, PartialEq, Eq, Structural)]
pub enum Stage {
    /// The socket is to become ready.
    Ready,
    /// A slot is to be reserved.
    Slot,
    /// The socket is to be read.
    Attempt,
    /// One message of the error queue is to be taken.
    Errors,
    /// An event is to be made of that message.
    Report,
}

/// What came of it.
pub enum Event<T> {
    /// The turn was cancelled before anything came.
    Cancelled,
    Ready(Result<(), IoError>),
    /// Whether there is a slot; there is none where nobody receives any more.
    Slot(bool),
    Attempt(Readiness<T>),
    Errors(Result<Drained, IoError>),
    /// Whether the message made an event, which is then sent in the slot.
    Report(bool),
}

/// What a turn does next.
pub enum Action<T> {
    Next(Stage),
    /// Sends what was received in the slot. The turn ends as sent.
    Deliver(T),
    /// Ends the turn. A slot that nothing was sent in is given back.
    End(Turned),
}

/// Whether an event can come in a stage.
pub open spec fn expected<T>(stage: Stage, event: Event<T>) -> bool {
    match stage {
        Stage::Ready => event is Cancelled || event is Ready,
        Stage::Slot => event is Cancelled || event is Slot,
        Stage::Attempt => event is Attempt,
        Stage::Errors => event is Errors,
        Stage::Report => event is Report,
    }
}

/// What a turn does after an event.
pub open spec fn advanced<T>(event: Event<T>) -> Action<T> {
    match event {
        Event::Cancelled => Action::End(Turned::Cancelled),
        Event::Ready(Ok(_)) => Action::Next(Stage::Slot),
        Event::Ready(Err(error)) => Action::End(Turned::Failed(error)),
        Event::Slot(true) => Action::Next(Stage::Attempt),
        Event::Slot(false) => Action::End(Turned::Closed),
        Event::Attempt(Readiness::Received(payload)) => Action::Deliver(payload),
        Event::Attempt(Readiness::Stale) => Action::End(Turned::Released),
        Event::Attempt(Readiness::Failed(error)) => Action::End(Turned::Failed(error)),
        Event::Attempt(Readiness::Errored) => Action::Next(Stage::Errors),
        Event::Errors(Err(error)) => Action::End(Turned::Failed(error)),
        Event::Errors(Ok(drained)) => if slot_for(drained) is Send {
            Action::Next(Stage::Report)
        } else {
            Action::End(Turned::Released)
        },
        Event::Report(true) => Action::End(Turned::Reported),
        Event::Report(false) => Action::End(Turned::Released),
    }
}

/// Moves a turn on.
pub fn advance<T>(stage: Stage, event: Event<T>) -> (r: Action<T>)
    requires
        expected(stage, event),
    ensures
        r == advanced(event),
{
    match event {
        Event::Cancelled => Action::End(Turned::Cancelled),
        Event::Ready(Ok(_)) => Action::Next(Stage::Slot),
        Event::Ready(Err(error)) => Action::End(Turned::Failed(error)),
        Event::Slot(true) => Action::Next(Stage::Attempt),
        Event::Slot(false) => Action::End(Turned::Closed),
        Event::Attempt(Readiness::Received(payload)) => Action::Deliver(payload),
        Event::Attempt(Readiness::Stale) => Action::End(Turned::Released),
        Event::Attempt(Readiness::Failed(error)) => Action::End(Turned::Failed(error)),
        Event::Attempt(Readiness::Errored) => Action::Next(Stage::Errors),
        Event::Errors(Err(error)) => Action::End(Turned::Failed(error)),
        Event::Errors(Ok(drained)) => match disposition(drained) {
            Disposition::Send => Action::Next(Stage::Report),
            Disposition::Release => Action::End(Turned::Released),
        },
        Event::Report(true) => Action::End(Turned::Reported),
        Event::Report(false) => Action::End(Turned::Released),
    }
}

/// How many steps a turn has taken before a stage.
pub open spec fn steps_before(stage: Stage) -> int {
    match stage {
        Stage::Ready => 0,
        Stage::Slot => 1,
        Stage::Attempt => 2,
        Stage::Errors => 3,
        Stage::Report => 4,
    }
}

/// The stages come in one order, each once: readiness, the slot, the attempt, the error queue, the report. So a
/// turn takes at most one message.
pub proof fn law_stages_in_order<T>(stage: Stage, event: Event<T>)
    requires
        expected(stage, event),
    ensures
        advanced(event) matches Action::Next(next) ==> steps_before(next) == steps_before(stage) + 1,
{
}

/// The socket is read only in a slot, and a slot is asked for only when the socket was ready.
pub proof fn law_slot_before_read<T>(stage: Stage, event: Event<T>)
    requires
        expected(stage, event),
    ensures
        advanced(event) == Action::<T>::Next(Stage::Attempt) ==> stage == Stage::Slot && event == Event::<
            T,
        >::Slot(true),
        advanced(event) == Action::<T>::Next(Stage::Slot) ==> stage == Stage::Ready && event is Ready,
        advanced(event) is Deliver ==> stage == Stage::Attempt,
        advanced(event) == Action::<T>::End(Turned::Reported) ==> stage == Stage::Report,
{
}

/// A backlog of errors that nobody can be told of never holds a slot: each of them ends its turn with the slot
/// given back.
pub proof fn law_unreportable_errors_release<T>(drained: Drained)
    requires
        drained !is Remote,
    ensures
        advanced(Event::<T>::Errors(Ok(drained))) == Action::<T>::End(Turned::Released),
{
}

/// A turn that nothing goes wrong in waits for the socket, then for a place, then reads, and delivers what was read. It
/// ends as what happened says: cancelled, closed, with nothing, or with the error as it came.
pub proof fn law_a_turn_delivers_what_was_read<T>(payload: T, error: IoError, built: bool)
    ensures
        advanced(Event::<T>::Cancelled) == Action::<T>::End(Turned::Cancelled),
        advanced(Event::<T>::Ready(Ok(()))) == Action::<T>::Next(Stage::Slot),
        advanced(Event::<T>::Ready(Err(error))) == Action::<T>::End(Turned::Failed(error)),
        advanced(Event::<T>::Slot(true)) == Action::<T>::Next(Stage::Attempt),
        advanced(Event::<T>::Slot(false)) == Action::<T>::End(Turned::Closed),
        advanced(Event::Attempt(Readiness::Received(payload))) == Action::Deliver(payload),
        advanced(Event::<T>::Attempt(Readiness::Stale)) == Action::<T>::End(Turned::Released),
        advanced(Event::<T>::Attempt(Readiness::Failed(error))) == Action::<T>::End(Turned::Failed(error)),
        advanced(Event::<T>::Attempt(Readiness::Errored)) == Action::<T>::Next(Stage::Errors),
        advanced(Event::<T>::Errors(Err(error))) == Action::<T>::End(Turned::Failed(error)),
        advanced(Event::<T>::Errors(Ok(Drained::Remote))) == Action::<T>::Next(Stage::Report),
        advanced(Event::<T>::Report(built)) == Action::<T>::End(
            if built {
                Turned::Reported
            } else {
                Turned::Released
            },
        ),
{
}

/// Every stage waits for its own event. Only the two that wait can be cancelled.
pub proof fn law_only_waiting_can_be_cancelled<T>(stage: Stage, event: Event<T>)
    ensures
        expected(stage, Event::<T>::Cancelled) <==> stage is Ready || stage is Slot,
        expected(stage, event) && event is Ready ==> stage is Ready,
        expected(stage, event) && event is Slot ==> stage is Slot,
        expected(stage, event) && event is Attempt ==> stage is Attempt,
        expected(stage, event) && event is Errors ==> stage is Errors,
        expected(stage, event) && event is Report ==> stage is Report,
{
}

/// One reply waits to be taken at a time.
pub proof fn law_one_reply_waits_at_a_time()
    ensures
        MAILBOX == 1,
{
}

} // verus!
