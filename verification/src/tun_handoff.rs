//! One datagram's packets on their way to the serial writer, and how their writing ended.
use vstd::prelude::*;

use crate::ipv4_identification::{Guarded, Terminal};

verus! {

/// How many datagrams wait for the writer.
pub const DATAGRAMS: usize = 1;

/// How many endings wait for the owner.
pub const SETTLEMENTS: usize = 1;

/// The octets of every packet of a list.
pub open spec fn packet_views(packets: Seq<Vec<u8>>) -> Seq<Seq<u8>> {
    packets.map_values(|packet: Vec<u8>| packet@)
}

/// Every packet of one datagram, with the value that guards it.
#[derive(Debug)]
pub struct Batch {
    packets: Vec<Vec<u8>>,
    guarded: Option<Guarded>,
}

impl Batch {
    pub closed spec fn spec_packets(self) -> Seq<Seq<u8>> {
        packet_views(self.packets@)
    }

    pub closed spec fn spec_guarded(self) -> Option<Guarded> {
        self.guarded
    }

    /// One datagram's packets.
    pub fn new(packets: Vec<Vec<u8>>, guarded: Option<Guarded>) -> (r: Self)
        ensures
            r.spec_packets() == packet_views(packets@),
            r.spec_guarded() == guarded,
    {
        Batch { packets, guarded }
    }

    /// The packets, in the order they are written.
    pub fn packets(&self) -> (r: &[Vec<u8>])
        ensures
            packet_views(r@) == self.spec_packets(),
    {
        self.packets.as_slice()
    }

    /// The value that guards the datagram.
    pub fn guarded(&self) -> (r: Option<Guarded>)
        ensures
            r == self.spec_guarded(),
    {
        self.guarded
    }

    /// The packets, taken out.
    pub fn into_packets(self) -> (r: Vec<Vec<u8>>)
        ensures
            packet_views(r@) == self.spec_packets(),
    {
        self.packets
    }
}

/// How far the writing of one batch got.
#[derive(Debug, Clone, Copy, PartialEq, Eq)]
pub struct Progress {
    written: Option<u64>,
}

impl Default for Progress {
    fn default() -> (r: Self)
        ensures
            r.last_write() == None::<u64>,
    {
        Progress { written: None }
    }
}

impl Progress {
    /// When the last packet was written, if any was.
    pub closed spec fn last_write(self) -> Option<u64> {
        self.written
    }

    /// Takes the result of one packet's write: when it was written, or that it failed. Answers whether the
    /// batch goes on.
    pub fn packet(&mut self, at: Option<u64>) -> (r: bool)
        ensures
            r == (at is Some),
            final(self).last_write() == (if at is Some { at } else { old(self).last_write() }),
    {
        match at {
            Some(at) => {
                self.written = Some(at);
                true
            },
            None => false,
        }
    }

    /// When the last packet was written, if any was.
    pub fn written(self) -> (r: Option<u64>)
        ensures
            r == self.last_write(),
    {
        self.written
    }

    /// The ending that a guarded batch owes: its last successful write, or that nothing was written.
    pub fn terminal(self, guarded: Option<Guarded>) -> (r: Option<Terminal>)
        ensures
            match guarded {
                None => r is None,
                Some(guarded) => r matches Some(t) && t.spec_guarded() == guarded && t.spec_written()
                    == self.last_write(),
            },
    {
        match guarded {
            None => None,
            Some(guarded) => match self.written {
                Some(at) => Some(Terminal::wrote(guarded, at)),
                None => Some(Terminal::unwritten(guarded)),
            },
        }
    }
}

/// Why the writer's queue did not take a batch.
#[derive(Debug, Clone, Copy, PartialEq, Eq, Structural)]
pub enum Rejected {
    Full,
    Closed,
}

/// What the writer's queue answers an offer, by its free places and whether its reader is gone.
pub fn offered(capacity: usize, closed: bool) -> (r: Result<(), Rejected>)
    ensures
        r == (if closed {
            Err::<(), Rejected>(Rejected::Closed)
        } else if capacity == 0 {
            Err(Rejected::Full)
        } else {
            Ok(())
        }),
{
    if closed {
        Err(Rejected::Closed)
    } else if capacity == 0 {
        Err(Rejected::Full)
    } else {
        Ok(())
    }
}

/// Whether an offer is worth making: there is a place, or the reader is gone and waiting would not end.
pub fn accepting(capacity: usize, closed: bool) -> (r: bool)
    ensures
        r == (capacity > 0 || closed),
{
    capacity > 0 || closed
}

/// What a batch holds are its packets, octet by octet, in their order.
pub proof fn law_a_batch_holds_its_packets(packets: Seq<Vec<u8>>, i: int)
    requires
        0 <= i < packets.len(),
    ensures
        packet_views(packets).len() == packets.len(),
        packet_views(packets)[i] == packets[i]@,
{
}

/// One datagram is on its way to the tun at a time, and one settlement on its way back.
pub proof fn law_one_at_a_time_each_way()
    ensures
        DATAGRAMS == 1,
        SETTLEMENTS == 1,
{
}

} // verus!
