//! Issues IPv4 Identification values so that no value of a tuple is reused while a datagram that carried it
//! may still be on its way.
use vstd::prelude::*;

use crate::rows::{RowKey, Rows};

verus! {

/// The longest a datagram may live in the network, in nanoseconds.
pub const MDL: u64 = 120_000_000_000;

/// How many values one cycle issues.
pub const VALUES: u32 = 65_536;

/// What values are unique within: source, destination and protocol.
pub type Tuple = (u32, u32, u8);

impl RowKey for Tuple {
    type Model = Tuple;

    open spec fn model(&self) -> Tuple {
        *self
    }

    fn same(&self, other: &Self) -> bool {
        self.0 == other.0 && self.1 == other.1 && self.2 == other.2
    }
}

/// Why no value was issued.
#[derive(Clone, Copy, Debug, PartialEq, Eq, Structural)]
pub enum Denial {
    /// The session is too young to know which values an earlier one left in flight.
    Quarantined,
    /// Every value of the tuple's cycle was issued and the cycle has not aged out.
    Exhausted,
}

/// One issued value, and the tuple it was issued for.
#[derive(Clone, Copy, Debug, PartialEq, Eq)]
pub struct Guarded {
    tuple: Tuple,
    identification: u16,
}

impl Guarded {
    pub closed spec fn spec_tuple(self) -> Tuple {
        self.tuple
    }

    pub closed spec fn value(self) -> u16 {
        self.identification
    }

    /// The value to put in the header.
    pub fn identification(&self) -> (r: u16)
        ensures
            r == self.value(),
    {
        self.identification
    }

    /// The tuple it was issued for.
    pub fn tuple(&self) -> (r: Tuple)
        ensures
            r == self.spec_tuple(),
    {
        self.tuple
    }
}

/// How one accepted datagram ended.
#[derive(Clone, Copy, Debug, PartialEq, Eq)]
pub struct Terminal {
    guarded: Guarded,
    written: Option<u64>,
}

impl Terminal {
    pub closed spec fn spec_guarded(self) -> Guarded {
        self.guarded
    }

    pub closed spec fn spec_written(self) -> Option<u64> {
        self.written
    }

    /// A datagram of which at least one packet was written, the last at `at`.
    pub fn wrote(guarded: Guarded, at: u64) -> (r: Self)
        ensures
            r.spec_guarded() == guarded,
            r.spec_written() == Some(at),
    {
        Terminal { guarded, written: Some(at) }
    }

    /// A datagram none of which was written.
    pub fn unwritten(guarded: Guarded) -> (r: Self)
        ensures
            r.spec_guarded() == guarded,
            r.spec_written() == None::<u64>,
    {
        Terminal { guarded, written: None }
    }

    /// Whose ending this is.
    pub fn guarded(&self) -> (r: Guarded)
        ensures
            r == self.spec_guarded(),
    {
        self.guarded
    }

    /// When the last packet was written, if any was.
    pub fn written(&self) -> (r: Option<u64>)
        ensures
            r == self.spec_written(),
    {
        self.written
    }
}

/// One tuple's cycle.
#[derive(Clone, Copy, Debug)]
pub struct Cycle {
    /// How many values the cycle has issued.
    pub issued: u32,
    /// How many accepted datagrams have not ended.
    pub outstanding: u64,
    /// When the last packet under any of the tuple's values was written.
    pub last_write: Option<u64>,
}

/// The allocator's state.
pub struct Issued {
    pub opened: u64,
    pub cycles: Map<Tuple, Cycle>,
    pub outstanding: u64,
    pub exhausted: u64,
}

impl Issued {
    /// Whether the counters can count one more.
    pub open spec fn countable(self) -> bool {
        &&& self.exhausted < u64::MAX
        &&& self.outstanding < u64::MAX
        &&& forall|t: Tuple| #[trigger] self.cycles.contains_key(t) ==> self.cycles[t].outstanding < u64::MAX
    }
}

/// The value that a cycle issues after `issued` others.
pub open spec fn nth_value(issued: u32) -> u16 {
    ((issued + 1) % 65536) as u16
}

/// Whether a whole lifetime has passed since `then`.
pub open spec fn aged(then: u64, now: u64) -> bool {
    now - then >= MDL
}

/// Whether a used-up cycle may start over.
pub open spec fn renewable(cycle: Cycle, now: u64) -> bool {
    cycle.outstanding == 0 && (cycle.last_write matches Some(at) ==> aged(at, now))
}

impl Issued {
    pub open spec fn cycle(self, tuple: Tuple) -> Cycle {
        if self.cycles.contains_key(tuple) {
            self.cycles[tuple]
        } else {
            Cycle { issued: 0, outstanding: 0, last_write: None }
        }
    }

    /// The cycle that the tuple's next value comes from, where there is one.
    pub open spec fn current(self, tuple: Tuple, now: u64) -> Cycle {
        let cycle = self.cycle(tuple);
        if cycle.issued >= VALUES && renewable(cycle, now) {
            Cycle { issued: 0, ..cycle }
        } else {
            cycle
        }
    }

    pub open spec fn denial(self, tuple: Tuple, now: u64) -> Option<Denial> {
        if !aged(self.opened, now) {
            Some(Denial::Quarantined)
        } else if self.current(tuple, now).issued >= VALUES {
            Some(Denial::Exhausted)
        } else {
            None
        }
    }

    /// The state after asking for a value.
    pub open spec fn after_next(self, tuple: Tuple, now: u64) -> Issued {
        match self.denial(tuple, now) {
            Some(Denial::Quarantined) => self,
            Some(Denial::Exhausted) => Issued { exhausted: (self.exhausted + 1) as u64, ..self },
            None => {
                let cycle = self.current(tuple, now);
                Issued {
                    cycles: self.cycles.insert(
                        tuple,
                        Cycle { issued: (cycle.issued + 1) as u32, ..cycle },
                    ),
                    ..self
                }
            },
        }
    }

    /// The state after a datagram under the value was taken by the writer.
    pub open spec fn after_accepted(self, tuple: Tuple) -> Issued {
        let cycle = self.cycle(tuple);
        Issued {
            cycles: self.cycles.insert(
                tuple,
                Cycle { outstanding: (cycle.outstanding + 1) as u64, ..cycle },
            ),
            outstanding: (self.outstanding + 1) as u64,
            ..self
        }
    }

    /// The state after a value that reached nothing was given back: the last one issued is issued again.
    pub open spec fn after_unissued(self, tuple: Tuple, value: u16) -> Issued {
        let cycle = self.cycle(tuple);
        if cycle.issued > 0 && nth_value((cycle.issued - 1) as u32) == value {
            Issued {
                cycles: self.cycles.insert(
                    tuple,
                    Cycle { issued: (cycle.issued - 1) as u32, ..cycle },
                ),
                ..self
            }
        } else {
            self
        }
    }

    /// The state after an accepted datagram ended.
    pub open spec fn after_terminal(self, tuple: Tuple, written: Option<u64>) -> Issued {
        let cycle = self.cycle(tuple);
        Issued {
            cycles: self.cycles.insert(
                tuple,
                Cycle {
                    issued: cycle.issued,
                    outstanding: less_one(cycle.outstanding),
                    last_write: later(cycle.last_write, written),
                },
            ),
            outstanding: less_one(self.outstanding),
            ..self
        }
    }
}

/// One less, and never below zero.
pub open spec fn less_one(n: u64) -> u64 {
    if n == 0 { 0 } else { (n - 1) as u64 }
}

/// The later of two times, where there is one.
pub open spec fn later(a: Option<u64>, b: Option<u64>) -> Option<u64> {
    match (a, b) {
        (Some(x), Some(y)) => if x < y { b } else { a },
        (None, _) => b,
        _ => a,
    }
}

/// Issues Identification values per tuple.
pub struct Ipv4Identifications {
    opened: u64,
    cycles: Rows<Tuple, Cycle>,
    outstanding: u64,
    exhausted: u64,
}

impl View for Ipv4Identifications {
    type V = Issued;

    closed spec fn view(&self) -> Issued {
        Issued {
            opened: self.opened,
            cycles: self.cycles@,
            outstanding: self.outstanding,
            exhausted: self.exhausted,
        }
    }
}

impl Ipv4Identifications {
    pub closed spec fn wf(&self) -> bool {
        self.cycles.wf()
    }

    /// Whether the counters can count one more.
    pub open spec fn countable(&self) -> bool {
        self@.countable()
    }

    /// Whether the counters can count one more.
    pub fn can_count(&self) -> (r: bool)
        requires
            self.wf(),
        ensures
            r == self.countable(),
    {
        if self.exhausted == u64::MAX || self.outstanding == u64::MAX {
            return false;
        }
        proof {
            self.cycles.lemma_entries();
        }
        let mut i: usize = 0;
        while i < self.cycles.len()
            invariant
                self.cycles.wf(),
                i <= self.cycles.entries().len(),
                self.cycles@.dom().len() == self.cycles.entries().len(),
                forall|j: int|
                    0 <= j < i ==> (#[trigger] self.cycles.entries()[j]).1.outstanding < u64::MAX,
            decreases self.cycles.entries().len() - i,
        {
            if self.cycles.value_at(i).outstanding == u64::MAX {
                assert(!self.countable());
                return false;
            }
            i += 1;
        }
        proof {
            assert forall|t: Tuple| #[trigger] self@.cycles.contains_key(t) implies self@.cycles[t].outstanding
                < u64::MAX by {
                let j = choose|j: int|
                    0 <= j < self.cycles.entries().len() && (#[trigger] self.cycles.entries()[j]).0.model() == t;
                assert(self.cycles.entries()[j].1.outstanding < u64::MAX);
            }
        }
        true
    }

    /// An allocator that issues nothing until a whole datagram lifetime after `opened`.
    pub fn new(opened: u64) -> (r: Self)
        ensures
            r.wf(),
            r@ == (Issued { opened, cycles: Map::empty(), outstanding: 0, exhausted: 0 }),
    {
        Ipv4Identifications { opened, cycles: Rows::new(), outstanding: 0, exhausted: 0 }
    }

    fn cycle(&self, tuple: &Tuple) -> (r: Cycle)
        requires
            self.wf(),
        ensures
            r == self@.cycle(*tuple),
    {
        match self.cycles.get(tuple) {
            Some(cycle) => *cycle,
            None => Cycle { issued: 0, outstanding: 0, last_write: None },
        }
    }

    /// Issues the next value of a tuple's cycle.
    pub fn next(&mut self, tuple: Tuple, now: u64) -> (r: Result<Guarded, Denial>)
        requires
            old(self).wf(),
            old(self).countable(),
        ensures
            final(self).wf(),
            final(self)@ == old(self)@.after_next(tuple, now),
            match r {
                Ok(guarded) => {
                    &&& old(self)@.denial(tuple, now) is None
                    &&& guarded.spec_tuple() == tuple
                    &&& guarded.value() == nth_value(old(self)@.current(tuple, now).issued)
                },
                Err(denial) => old(self)@.denial(tuple, now) == Some(denial),
            },
    {
        if !(now >= self.opened && now - self.opened >= MDL) {
            return Err(Denial::Quarantined);
        }
        let mut cycle = self.cycle(&tuple);
        if cycle.issued >= VALUES {
            let old_enough = match cycle.last_write {
                Some(at) => now >= at && now - at >= MDL,
                None => true,
            };
            if cycle.outstanding != 0 || !old_enough {
                self.exhausted = self.exhausted + 1;
                return Err(Denial::Exhausted);
            }
            cycle.issued = 0;
        }
        let identification: u16 = ((cycle.issued + 1) % VALUES) as u16;
        cycle.issued = cycle.issued + 1;
        self.cycles.insert(tuple, cycle);
        Ok(Guarded { tuple, identification })
    }

    /// Records that the writer took a datagram under an issued value.
    pub fn accepted(&mut self, guarded: Guarded)
        requires
            old(self).wf(),
            old(self).countable(),
        ensures
            final(self).wf(),
            final(self)@ == old(self)@.after_accepted(guarded.spec_tuple()),
    {
        let mut cycle = self.cycle(&guarded.tuple);
        cycle.outstanding = cycle.outstanding + 1;
        self.cycles.insert(guarded.tuple, cycle);
        self.outstanding = self.outstanding + 1;
    }

    /// Gives back a value that reached nothing.
    pub fn unissued(&mut self, guarded: Guarded)
        requires
            old(self).wf(),
        ensures
            final(self).wf(),
            final(self)@ == old(self)@.after_unissued(guarded.spec_tuple(), guarded.value()),
    {
        let mut cycle = self.cycle(&guarded.tuple);
        if cycle.issued > 0 && (cycle.issued % VALUES) as u16 == guarded.identification {
            cycle.issued = cycle.issued - 1;
            self.cycles.insert(guarded.tuple, cycle);
        }
    }

    /// Settles one accepted datagram.
    pub fn terminal(&mut self, terminal: Terminal)
        requires
            old(self).wf(),
        ensures
            final(self).wf(),
            final(self)@ == old(self)@.after_terminal(
                terminal.spec_guarded().spec_tuple(),
                terminal.spec_written(),
            ),
    {
        let tuple = terminal.guarded.tuple;
        let mut cycle = self.cycle(&tuple);
        cycle.outstanding = cycle.outstanding.saturating_sub(1);
        cycle.last_write = match (cycle.last_write, terminal.written) {
            (Some(x), Some(y)) => if x < y { Some(y) } else { Some(x) },
            (None, written) => written,
            (last, None) => last,
        };
        self.cycles.insert(tuple, cycle);
        self.outstanding = self.outstanding.saturating_sub(1);
    }

    /// How many accepted datagrams have not ended.
    pub fn outstanding(&self) -> (r: u64)
        ensures
            r == self@.outstanding,
    {
        self.outstanding
    }

    /// How many requests a used-up cycle refused.
    pub fn exhausted(&self) -> (r: u64)
        ensures
            r == self@.exhausted,
    {
        self.exhausted
    }

    /// How many tuples have a cycle.
    pub fn len(&self) -> (r: usize)
        requires
            self.wf(),
        ensures
            r == self@.cycles.dom().len(),
    {
        self.cycles.len()
    }

    /// Whether no tuple has a cycle.
    pub fn is_empty(&self) -> (r: bool)
        requires
            self.wf(),
        ensures
            r == (self@.cycles.dom().len() == 0),
    {
        self.cycles.len() == 0
    }
}

/// A value is issued a second time only once nothing under the tuple's earlier values is outstanding and a
/// whole lifetime has passed since the last of them was written.
pub proof fn law_no_reuse_while_alive(state: Issued, tuple: Tuple, now: u64)
    requires
        state.denial(tuple, now) is None,
        state.cycle(tuple).issued >= VALUES,
    ensures
        state.cycle(tuple).outstanding == 0,
        state.cycle(tuple).last_write matches Some(at) ==> now - at >= MDL,
{
}

/// A value that reached nothing is the next one issued.
pub proof fn law_unissued_value_is_issued_again(state: Issued, tuple: Tuple, now: u64, then: u64)
    requires
        state.denial(tuple, now) is None,
        state.cycle(tuple).issued < VALUES,
        now <= then,
    ensures
        ({
            let value = nth_value(state.current(tuple, now).issued);
            let back = state.after_next(tuple, now).after_unissued(tuple, value);
            &&& back.denial(tuple, then) is None
            &&& nth_value(back.current(tuple, then).issued) == value
        }),
{
}

/// Within one cycle no two values are the same.
pub proof fn law_values_of_a_cycle_differ(a: u32, b: u32)
    requires
        a < b < VALUES,
    ensures
        nth_value(a) != nth_value(b),
{
}

/// No value is issued to anybody in the first two minutes, whatever was issued before.
pub proof fn law_no_value_in_the_first_two_minutes(state: Issued, tuple: Tuple, now: u64)
    ensures
        state.denial(tuple, now) == Some(Denial::Quarantined) <==> now - state.opened < 120_000_000_000,
        now - state.opened < 120_000_000_000 ==> state.after_next(tuple, now) == state,
{
}

/// The values of a tuple are issued one after the other from 1 on, the last of them 0, and each is noted for its tuple
/// alone.
pub proof fn law_values_are_issued_in_turn(state: Issued, tuple: Tuple, now: u64, other: Tuple)
    requires
        now - state.opened >= 120_000_000_000,
        state.cycle(tuple).issued < 65_536,
    ensures
        state.denial(tuple, now) is None,
        !state.cycles.contains_key(tuple) ==> nth_value(state.current(tuple, now).issued) == 1,
        nth_value(state.current(tuple, now).issued) == if state.cycle(tuple).issued == 65_535 {
            0int
        } else {
            state.cycle(tuple).issued + 1
        },
        ({
            let after = state.after_next(tuple, now);
            &&& after.cycles.contains_key(tuple)
            &&& after.cycles[tuple].issued == state.cycle(tuple).issued + 1
            &&& after.cycles[tuple].outstanding == state.cycle(tuple).outstanding
            &&& after.cycles[tuple].last_write == state.cycle(tuple).last_write
            &&& after.outstanding == state.outstanding
            &&& after.exhausted == state.exhausted
            &&& after.opened == state.opened
            &&& other != tuple ==> after.cycles.contains_key(other) == state.cycles.contains_key(other)
            &&& other != tuple && state.cycles.contains_key(other) ==> after.cycles[other] == state.cycles[other]
        }),
{
}

/// When all values of a tuple are issued there is another exactly once none of them is on its way and two minutes have
/// passed since the last was written. Then they begin anew. Until then every request is denied, and counted.
pub proof fn law_a_used_up_tuple_begins_anew(state: Issued, tuple: Tuple, now: u64)
    requires
        now - state.opened >= 120_000_000_000,
        state.cycles.contains_key(tuple),
        state.cycles[tuple].issued == 65_536,
        state.exhausted < u64::MAX,
    ensures
        ({
            let cycle = state.cycles[tuple];
            let quiet = cycle.outstanding == 0 && (cycle.last_write is None || now - cycle.last_write->0
                >= 120_000_000_000);
            let after = state.after_next(tuple, now);
            &&& quiet ==> {
                &&& state.denial(tuple, now) is None
                &&& nth_value(state.current(tuple, now).issued) == 1
                &&& after.cycles[tuple].issued == 1
                &&& after.exhausted == state.exhausted
            }
            &&& !quiet ==> {
                &&& state.denial(tuple, now) == Some(Denial::Exhausted)
                &&& after.cycles == state.cycles
                &&& after.exhausted == state.exhausted + 1
                &&& after.outstanding == state.outstanding
            }
        }),
{
}

/// A packet that was taken is on its way until it is written or dropped, and is counted once for it. What was written
/// last is the latest that was written.
pub proof fn law_what_is_on_its_way_is_counted(state: Issued, tuple: Tuple, written: Option<u64>, other: Tuple)
    requires
        state.outstanding < u64::MAX,
        state.cycle(tuple).outstanding < u64::MAX,
    ensures
        ({
            let on = state.after_accepted(tuple);
            let over = on.after_terminal(tuple, written);
            &&& on.cycles[tuple].outstanding == state.cycle(tuple).outstanding + 1
            &&& on.outstanding == state.outstanding + 1
            &&& on.cycles[tuple].issued == state.cycle(tuple).issued
            &&& on.cycles[tuple].last_write == state.cycle(tuple).last_write
            &&& over.cycles[tuple].outstanding == state.cycle(tuple).outstanding
            &&& over.outstanding == state.outstanding
            &&& over.cycles[tuple].issued == state.cycle(tuple).issued
            &&& written is None ==> over.cycles[tuple].last_write == state.cycle(tuple).last_write
            &&& written is Some ==> {
                let last = over.cycles[tuple].last_write;
                &&& last is Some
                &&& last->0 >= written->0
                &&& last == written || last == state.cycle(tuple).last_write
                &&& state.cycle(tuple).last_write is Some ==> last->0 >= state.cycle(tuple).last_write->0
            }
            &&& over.exhausted == state.exhausted
            &&& over.opened == state.opened
            &&& other != tuple ==> over.cycles.contains_key(other) == state.cycles.contains_key(other)
            &&& other != tuple && state.cycles.contains_key(other) ==> over.cycles[other] == state.cycles[other]
        }),
{
}

/// The value that was issued last can be given back, and then it is as if it had not been issued. Any other cannot be.
pub proof fn law_only_the_last_value_goes_back(state: Issued, tuple: Tuple, value: u16, other: Tuple)
    ensures
        ({
            let cycle = state.cycle(tuple);
            let after = state.after_unissued(tuple, value);
            let last = cycle.issued > 0 && value == cycle.issued % 65_536;
            &&& last ==> {
                &&& after.cycles.contains_key(tuple)
                &&& after.cycles[tuple].issued == cycle.issued - 1
                &&& after.cycles[tuple].outstanding == cycle.outstanding
                &&& after.cycles[tuple].last_write == cycle.last_write
            }
            &&& !last ==> after == state
            &&& after.outstanding == state.outstanding
            &&& after.exhausted == state.exhausted
            &&& other != tuple && state.cycles.contains_key(other) ==> after.cycles.contains_key(other)
                && after.cycles[other] == state.cycles[other]
        }),
{
}

} // verus!
