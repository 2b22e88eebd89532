//! Receiving replies of the upstream for a session, one turn after the other.
use vstd::layout::{align_of, size_of};
use vstd::prelude::*;

use crate::addr::SocketAddr;
use crate::egress;
use crate::egress::{DrainedState, Received, Reported, ReportedState};
use crate::ended::Ended;
use crate::octets::push_range;
use crate::protocol::IoError;
use crate::reply_bound::{countable, reply_channel_footprint, reply_charge, Drained, Turned};

verus! {

/// How long a datagram is at most.
pub const MAX_DATAGRAM: usize = 65_535;

/// What a session learns of its upstream.
#[derive(Debug)]
pub enum Event<K> {
    Reply { key: K, id: u64, remote: SocketAddr, hop_limit: u8, payload: Vec<u8> },
    Error { key: K, id: u64, error: Reported },
}

/// Whether a datagram's length is asked for before it is read.
#[derive(Clone, Copy, Debug, PartialEq, Eq, Structural)]
pub enum Sizing {
    Peek,
    Fixed,
}

/// What a channel of `depth` replies is charged.
pub fn reply_channel_bytes<K>(depth: usize) -> (r: Option<u64>)
    ensures
        r == countable(
            reply_charge(
                depth as int,
                depth as int,
                65_535,
                size_of::<Event<K>>() as int,
                align_of::<Event<K>>() as int,
                size_of::<usize>() as int,
            ),
        ),
{
    reply_channel_footprint::<Event<K>>(depth, depth, MAX_DATAGRAM as u64)
}

/// Whether receiving may begin: at once where its gate is open, else when its session was committed. Nothing is
/// told where it was cancelled before.
pub fn gate(pending: bool, committed: Option<bool>) -> (r: Result<(), Ended>)
    ensures
        if !pending || committed == Some(true) {
            r is Ok
        } else {
            r is Err && r->Err_0 is Expected
        },
{
    if !pending {
        return Ok(());
    }
    match committed {
        Some(true) => Ok(()),
        Some(false) => Err(Ended::Expected),
        None => Err(Ended::Expected),
    }
}

/// How long the buffer for a datagram is: as long as the datagram that waits, and never empty, where that is
/// asked for.
pub fn buffer_length(sizing: Sizing, waiting: usize) -> (r: usize)
    ensures
        r == (match sizing {
            Sizing::Peek => if waiting < 1 { 1 } else { waiting },
            Sizing::Fixed => 65_535,
        }),
{
    match sizing {
        Sizing::Peek => if waiting < 1 {
            1
        } else {
            waiting
        },
        Sizing::Fixed => MAX_DATAGRAM,
    }
}

/// The event of a reply: what was received stands at the start of its buffer.
pub fn replied<K>(key: K, id: u64, received: Received, buffer: &[u8]) -> (r: Event<K>)
    requires
        received.bytes <= buffer@.len(),
    ensures
        r matches Event::Reply { key: k, id: i, remote, hop_limit, payload } && k == key && i == id && remote
            == received.source && hop_limit == received.hop_limit && payload@ == buffer@.subrange(
            0,
            received.bytes as int,
        ),
{
    let mut payload: Vec<u8> = Vec::new();
    push_range(&mut payload, buffer, 0, received.bytes);
    assert(payload@ =~= buffer@.subrange(0, received.bytes as int));
    Event::Reply { key, id, remote: received.source, hop_limit: received.hop_limit, payload }
}

/// An error queue that remembers the last error that somebody on the way sent.
#[derive(Debug)]
pub struct Bound {
    found: Option<Reported>,
}

impl Bound {
    /// The error that was found.
    pub closed spec fn spec_found(&self) -> Option<ReportedState> {
        match self.found {
            Some(error) => Some(error@),
            None => None,
        }
    }

    /// Nothing was found.
    pub fn new() -> (r: Self)
        ensures
            r.spec_found() is None,
    {
        Bound { found: None }
    }

    /// Takes what a read of the queue gave.
    pub fn took(&mut self, read: Result<Option<egress::Drained>, IoError>) -> (r: Result<Drained, IoError>)
        ensures
            match read {
                Err(error) => r == Err::<Drained, IoError>(error) && final(self).spec_found()
                    == old(self).spec_found(),
                Ok(None) => r == Ok::<Drained, IoError>(Drained::Empty) && final(self).spec_found()
                    == old(self).spec_found(),
                Ok(Some(message)) => match message@ {
                    DrainedState::Remote(error) => r == Ok::<Drained, IoError>(Drained::Remote) && final(
                        self).spec_found() == Some(error),
                    DrainedState::Local(_) => r == Ok::<Drained, IoError>(Drained::Local) && final(
                        self).spec_found() == old(self).spec_found(),
                    DrainedState::Neither => r == Ok::<Drained, IoError>(Drained::Neither) && final(
                        self).spec_found() == old(self).spec_found(),
                },
            },
    {
        match read {
            Err(error) => Err(error),
            Ok(None) => Ok(Drained::Empty),
            Ok(Some(egress::Drained::Remote(error))) => {
                self.found = Some(error);
                Ok(Drained::Remote)
            },
            Ok(Some(egress::Drained::Local(_))) => Ok(Drained::Local),
            Ok(Some(egress::Drained::Neither)) => Ok(Drained::Neither),
        }
    }

    /// The event of the error that was found. It is told once.
    pub fn event<K>(&mut self, key: K, id: u64) -> (r: Option<Event<K>>)
        ensures
            final(self).spec_found() is None,
            match old(self).spec_found() {
                Some(found) => r matches Some(Event::Error { key: k, id: i, error }) && k == key && i == id
                    && error@ == found,
                None => r is None,
            },
    {
        match self.found.take() {
            Some(error) => Some(Event::Error { key, id, error }),
            None => None,
        }
    }
}

/// Whether receiving ends after a turn, and how. It goes on after one that sent, reported or released.
pub fn ended(turned: Turned) -> (r: Option<Ended>)
    ensures
        match turned {
            Turned::Sent | Turned::Reported | Turned::Released => r is None,
            Turned::Cancelled | Turned::Closed => r matches Some(ended) && ended is Expected,
            Turned::Failed(error) => r == Some(
                Ended::Failed { context: "shizuku.reply_receive", error },
            ),
        },
{
    match turned {
        Turned::Sent | Turned::Reported | Turned::Released => None,
        Turned::Cancelled | Turned::Closed => Some(Ended::Expected),
        Turned::Failed(error) => Some(Ended::Failed { context: "shizuku.reply_receive", error }),
    }
}

} // verus!
