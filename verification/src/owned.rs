//! Octets that grow only within what was set aside for them.
use vstd::prelude::*;

use crate::octets::push_range;

verus! {

/// Octets that somebody is charged for.
pub struct Owned {
    bytes: Vec<u8>,
    granted: usize,
}

impl View for Owned {
    type V = Seq<u8>;

    closed spec fn view(&self) -> Seq<u8> {
        self.bytes@
    }
}

/// The first `n` octets, or all where there are fewer.
pub open spec fn at_most(bytes: Seq<u8>, n: int) -> Seq<u8> {
    if n < bytes.len() {
        bytes.subrange(0, n)
    } else {
        bytes
    }
}

/// How much is left of `granted` octets that were set aside, when some are held.
pub open spec fn owed(held: nat, granted: nat) -> nat {
    if held < granted {
        (granted - held) as nat
    } else {
        0
    }
}

/// How many octets a vector can hold without moving.
///
/// Calls `Vec::capacity`, which is never less than what the vector holds. How much more it is, is up to the allocator
/// and not said.
#[verifier::external_body]
fn capacity(bytes: &Vec<u8>) -> (r: usize)
    ensures
        r >= bytes@.len(),
{
    bytes.capacity()
}

impl Owned {
    /// How many octets were set aside when it was made.
    pub closed spec fn spec_granted(&self) -> nat {
        self.granted as nat
    }

    /// Octets as they are. What is set aside for them is what their vector can hold without moving, which only the
    /// allocator knows.
    pub fn new(bytes: Vec<u8>) -> (r: Self)
        ensures
            r@ == bytes@,
            r.spec_granted() >= bytes@.len(),
    {
        let granted: usize = capacity(&bytes);
        Owned { bytes, granted }
    }

    /// How many octets were set aside when it was made.
    pub fn granted(&self) -> (r: usize)
        ensures
            r == self.spec_granted(),
    {
        self.granted
    }

    /// No octets, with room for some.
    pub fn with_capacity(bytes: usize) -> (r: Self)
        ensures
            r@ == Seq::<u8>::empty(),
            r.spec_granted() == bytes,
    {
        Owned { bytes: Vec::with_capacity(bytes), granted: bytes }
    }

    /// The octets.
    pub fn as_slice(&self) -> (r: &[u8])
        ensures
            r@ == self@,
    {
        self.bytes.as_slice()
    }

    /// Appends as much as there is `room` for, and says how much that was.
    pub fn extend_within(&mut self, room: usize, bytes: &[u8]) -> (r: usize)
        ensures
            r == at_most(bytes@, room as int).len(),
            final(self)@ == old(self)@ + at_most(bytes@, room as int),
            final(self).spec_granted() == old(self).spec_granted(),
    {
        let taken: usize = if room < bytes.len() {
            room
        } else {
            bytes.len()
        };
        push_range(&mut self.bytes, bytes, 0, taken);
        assert(bytes@.subrange(0, taken as int) =~= at_most(bytes@, room as int));
        taken
    }

    /// Appends as much as is left of what was set aside, and says how much that was. So the octets never grow past it,
    /// and never have to move.
    pub fn extend_within_capacity(&mut self, bytes: &[u8]) -> (r: usize)
        ensures
            ({
                let room = owed(old(self)@.len(), old(self).spec_granted());
                &&& r == at_most(bytes@, room as int).len()
                &&& final(self)@ == old(self)@ + at_most(bytes@, room as int)
            }),
            final(self)@.len() <= old(self).spec_granted() || final(self)@ == old(self)@,
            final(self).spec_granted() == old(self).spec_granted(),
    {
        let held: usize = self.bytes.len();
        let room: usize = if held < self.granted {
            self.granted - held
        } else {
            0
        };
        self.extend_within(room, bytes)
    }
}

/// What is kept of octets are the first of them, all where there are no more than fit, and what is owed back is what
/// was granted beyond what is held.
pub proof fn law_what_was_granted_beyond_is_owed(bytes: Seq<u8>, n: nat, held: nat, granted: nat)
    ensures
        at_most(bytes, n as int).len() <= n,
        at_most(bytes, n as int).len() == n || at_most(bytes, n as int) == bytes,
        forall|i: int| 0 <= i < at_most(bytes, n as int).len() ==> #[trigger] at_most(bytes, n as int)[i] == bytes[i],
        held <= granted ==> held + owed(held, granted) == granted,
        held >= granted ==> owed(held, granted) == 0,
{
}

} // verus!
