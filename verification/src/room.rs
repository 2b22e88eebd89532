//! One reserved place in a queue.
use vstd::prelude::*;

verus! {

/// What waiting for a place is charged.
pub const ACQUIRE_FUTURE_BYTES: u64 = 512;

/// A value that was not sent, where it came back.
#[derive(Debug)]
pub struct Unsent<T>(pub Option<T>);

/// What a queue says when it is asked for a place.
#[derive(Debug, Clone, Copy, PartialEq, Eq, Structural)]
pub enum Reserving {
    Granted,
    Closed,
    Pending,
}

/// What is to be done with a value.
#[derive(Debug)]
pub enum Sending<T> {
    /// It goes into the reserved place.
    Pass(T),
    /// The place is given up, since nobody receives any more, and the value comes back.
    Abort(Unsent<T>),
    /// There is no place for it.
    Refuse(Unsent<T>),
}

/// A place in a queue: whether it is reserved, and whether the queue was found closed.
#[derive(Debug, Clone, Copy, PartialEq, Eq, Structural)]
pub struct Room {
    reserved: bool,
    closed: bool,
}

impl View for Room {
    type V = RoomState;

    closed spec fn view(&self) -> RoomState {
        RoomState { reserved: self.reserved, closed: self.closed }
    }
}

impl Room {
    /// No place is reserved.
    pub fn new() -> (r: Self)
        ensures
            r@ == (RoomState { reserved: false, closed: false }),
    {
        Room { reserved: false, closed: false }
    }

    /// Whether a place is reserved.
    pub fn reserved(&self) -> (r: bool)
        ensures
            r == self@.reserved,
    {
        self.reserved
    }

    /// Whether the queue was found closed.
    pub fn closed(&self) -> (r: bool)
        ensures
            r == self@.closed,
    {
        self.closed
    }

    /// Notes what the queue said, where it had to be asked. The queue is asked only while no place is reserved, and
    /// one that was found closed gives none any more.
    pub fn reserve(&mut self, said: Reserving) -> (r: bool)
        ensures
            (final(self)@, r) == asked(old(self)@, Asked::Place(said)),
    {
        if self.reserved {
            return true;
        }
        if self.closed {
            return false;
        }
        match said {
            Reserving::Granted => {
                self.reserved = true;
                true
            },
            Reserving::Closed => {
                self.closed = true;
                false
            },
            Reserving::Pending => false,
        }
    }

    /// Says what is to be done with a value. The place is used up where there was one.
    pub fn send<T>(&mut self, value: T, closed: bool) -> (r: Sending<T>)
        ensures
            final(self)@ == asked(old(self)@, Asked::Send(closed)).0,
            r == (if !old(self)@.reserved {
                Sending::Refuse(Unsent(Some(value)))
            } else if closed {
                Sending::Abort(Unsent(Some(value)))
            } else {
                Sending::Pass(value)
            }),
    {
        if !self.reserved {
            return Sending::Refuse(Unsent(Some(value)));
        }
        self.reserved = false;
        if closed {
            self.closed = true;
            return Sending::Abort(Unsent(Some(value)));
        }
        Sending::Pass(value)
    }
}

/// What is asked of a room.
pub enum Asked {
    /// For a place, and what the queue said.
    Place(Reserving),
    /// To send a value, and whether the queue is closed.
    Send(bool),
}

/// Where a room stands: whether a place is reserved, and whether the queue was found closed.
pub struct RoomState {
    pub reserved: bool,
    pub closed: bool,
}

/// A room after something was asked of it, and whether it gave a place or took a value.
pub open spec fn asked(s: RoomState, asked: Asked) -> (RoomState, bool) {
    match asked {
        Asked::Place(said) => {
            let granted = s.reserved || !s.closed && said is Granted;
            (RoomState { reserved: granted, closed: s.closed || !s.reserved && said is Closed }, granted)
        },
        Asked::Send(closed) => (
            RoomState { reserved: false, closed: s.closed || s.reserved && closed },
            s.reserved && !closed,
        ),
    }
}

/// A room after one thing after another was asked of it.
pub open spec fn asked_all(s: RoomState, all: Seq<Asked>) -> RoomState
    decreases all.len(),
{
    if all.len() == 0 {
        s
    } else {
        asked(asked_all(s, all.drop_last()), all.last()).0
    }
}

/// A queue that was found closed stays so: whatever is asked of the room from then on, it gives no place and takes
/// no value.
pub proof fn law_a_closed_queue_stays_closed(s: RoomState, all: Seq<Asked>, next: Asked)
    requires
        s.closed,
        !s.reserved,
    ensures
        ({
            let after = asked_all(s, all);
            &&& after.closed && !after.reserved
            &&& asked(after, next) == (after, false)
        }),
    decreases all.len(),
{
    if all.len() > 0 {
        law_a_closed_queue_stays_closed(s, all.drop_last(), all.last());
    }
}

/// A place is never reserved in a queue that was found closed.
pub proof fn law_no_place_in_a_closed_queue(all: Seq<Asked>)
    ensures
        ({
            let after = asked_all(RoomState { reserved: false, closed: false }, all);
            after.closed ==> !after.reserved
        }),
    decreases all.len(),
{
    if all.len() > 0 {
        law_no_place_in_a_closed_queue(all.drop_last());
    }
}

/// A place that a queue grants is reserved, and asking again keeps it whatever the queue says. A queue that has not
/// decided, or is closed, reserves none.
pub proof fn law_a_granted_place_is_kept(s: RoomState, said: Reserving)
    ensures
        s.reserved ==> asked(s, Asked::Place(said)) == (s, true),
        !s.reserved && !s.closed && said is Granted ==> asked(s, Asked::Place(said)).0.reserved && asked(
            s,
            Asked::Place(said),
        ).1,
        !s.reserved && !(said is Granted) ==> !asked(s, Asked::Place(said)).0.reserved && !asked(
            s,
            Asked::Place(said),
        ).1,
        !s.reserved && said is Closed ==> asked(s, Asked::Place(said)).0.closed,
        !s.closed && !(said is Closed) ==> !asked(s, Asked::Place(said)).0.closed,
{
}

/// One value goes into a reserved place, and the place is used up by it. A value without a place is not taken, and
/// neither is one that nobody receives any more.
pub proof fn law_a_place_takes_one_value(s: RoomState, closed: bool)
    ensures
        asked(s, Asked::Send(closed)).1 <==> s.reserved && !closed,
        !asked(s, Asked::Send(closed)).0.reserved,
        !asked(asked(s, Asked::Send(closed)).0, Asked::Send(false)).1,
        s.reserved && closed ==> asked(s, Asked::Send(closed)).0.closed,
        !closed ==> asked(s, Asked::Send(closed)).0.closed == s.closed,
{
}

/// Waiting for a place is charged half a kilobyte.
pub proof fn law_what_waiting_is_charged()
    ensures
        ACQUIRE_FUTURE_BYTES == 512,
{
}

} // verus!
