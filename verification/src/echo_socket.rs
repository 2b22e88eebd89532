//! The sockets that echo requests go out of, one for each family.
use vstd::prelude::*;

use crate::rows::RowKey;
use crate::workers::{Held, TaskId, Workers};

verus! {

/// A family of addresses.
#[derive(Clone, Copy, Debug, PartialEq, Eq, Structural)]
pub enum Family {
    Ipv4,
    Ipv6,
}

impl RowKey for Family {
    type Model = Family;

    open spec fn model(&self) -> Family {
        *self
    }

    fn same(&self, other: &Self) -> (r: bool) {
        *self == *other
    }
}

impl Family {
    /// Whether it is the family of IPv6.
    pub fn ipv6(self) -> (r: bool)
        ensures
            r == (self is Ipv6),
    {
        match self {
            Family::Ipv4 => false,
            Family::Ipv6 => true,
        }
    }
}

/// Why there is no socket.
#[derive(Clone, Copy, Debug, PartialEq, Eq, Structural)]
pub enum Refused {
    Unavailable,
    OpenFailed,
}

/// The sockets. Each has a worker that receives from it.
pub struct Sockets<S> {
    sockets: Workers<Family, S>,
}

impl<S> Sockets<S> {
    pub closed spec fn wf(&self) -> bool {
        self.sockets.wf()
    }

    /// The sockets by family.
    pub closed spec fn spec_held(&self) -> Map<Family, Held<S>> {
        self.sockets.spec_held()
    }

    /// The workers' tasks that have not ended.
    pub closed spec fn spec_running(&self) -> Map<u64, (Family, u64)> {
        self.sockets.spec_running()
    }

    /// The next identity.
    pub closed spec fn spec_next(&self) -> u64 {
        self.sockets.spec_next()
    }

    /// No sockets.
    pub fn new() -> (r: Self)
        ensures
            r.wf(),
            r.spec_held() == Map::<Family, Held<S>>::empty(),
            r.spec_running() == Map::<u64, (Family, u64)>::empty(),
            r.spec_next() == 0,
    {
        Sockets { sockets: Workers::new() }
    }

    /// A family's socket.
    pub fn held(&self, family: Family) -> (r: Option<&S>)
        requires
            self.wf(),
        ensures
            match r {
                Some(socket) => self.spec_held().contains_key(family) && *socket
                    == self.spec_held()[family].record,
                None => !self.spec_held().contains_key(family),
            },
    {
        match self.sockets.get(&family) {
            Some(held) => Some(&held.record),
            None => None,
        }
    }

    /// An identity for a socket that was opened, if it was and one is left.
    pub fn identity(&mut self, opened: bool) -> (r: Result<u64, Refused>)
        requires
            old(self).wf(),
        ensures
            final(self).wf(),
            final(self).spec_held() == old(self).spec_held(),
            final(self).spec_running() == old(self).spec_running(),
            r == (if !opened {
                Err::<u64, Refused>(Refused::OpenFailed)
            } else if old(self).spec_next() == u64::MAX {
                Err(Refused::Unavailable)
            } else {
                Ok(old(self).spec_next())
            }),
            final(self).spec_next() == match r {
                Ok(id) => (id + 1) as u64,
                Err(_) => old(self).spec_next(),
            },
    {
        if !opened {
            return Err(Refused::OpenFailed);
        }
        match self.sockets.identity() {
            Ok(id) => Ok(id),
            Err(_) => Err(Refused::Unavailable),
        }
    }

    /// Takes a socket in with its worker's task, unless its family has one.
    pub fn enroll(&mut self, family: Family, id: u64, socket: S, task: TaskId) -> (r: Result<(), Refused>)
        requires
            old(self).wf(),
            !old(self).spec_running().contains_key(task.0),
        ensures
            final(self).wf(),
            final(self).spec_next() == old(self).spec_next(),
            if old(self).spec_held().contains_key(family) {
                &&& r == Err::<(), Refused>(Refused::Unavailable)
                &&& final(self).spec_held() == old(self).spec_held()
                &&& final(self).spec_running() == old(self).spec_running()
            } else {
                &&& r is Ok
                &&& final(self).spec_held() == old(self).spec_held().insert(
                    family,
                    Held { id, cancelled: false, record: socket },
                )
                &&& final(self).spec_running() == old(self).spec_running().insert(task.0, (family, id))
            },
    {
        match self.sockets.enroll(family, id, socket, task) {
            Ok(_) => Ok(()),
            Err(_) => Err(Refused::Unavailable),
        }
    }

    /// Whether a family's socket is the one of this identity.
    pub fn current(&self, family: Family, id: u64) -> (r: bool)
        requires
            self.wf(),
        ensures
            r == (self.spec_held().contains_key(family) && self.spec_held()[family].id == id),
    {
        self.sockets.current(&family, id)
    }

    /// Cancels every worker.
    pub fn cancel(&mut self)
        requires
            old(self).wf(),
        ensures
            final(self).wf(),
            final(self).spec_next() == old(self).spec_next(),
            final(self).spec_running() == old(self).spec_running(),
            final(self).spec_held() == old(self).spec_held().map_values(
                |held: Held<S>| Held { id: held.id, cancelled: true, record: held.record },
            ),
    {
        self.sockets.cancel_all();
    }

    /// How many sockets are still received from.
    pub fn running(&self) -> (r: usize)
        requires
            self.wf(),
        ensures
            r == self.spec_running().dom().len(),
    {
        self.sockets.running()
    }

    /// Whether a worker still runs.
    pub fn working(&self) -> (r: bool)
        requires
            self.wf(),
        ensures
            r == (self.spec_running().dom().len() != 0),
    {
        self.sockets.working()
    }

    /// Notes that a task ended, and tells whose it was.
    pub fn finished(&mut self, task: TaskId) -> (r: Option<(Family, u64)>)
        requires
            old(self).wf(),
        ensures
            final(self).wf(),
            final(self).spec_next() == old(self).spec_next(),
            final(self).spec_held() == old(self).spec_held(),
            final(self).spec_running() == old(self).spec_running().remove(task.0),
            match r {
                Some(whose) => old(self).spec_running().contains_key(task.0) && whose
                    == old(self).spec_running()[task.0],
                None => !old(self).spec_running().contains_key(task.0),
            },
    {
        self.sockets.finished(task)
    }

    /// Gives up a family's socket, if it is the one of this identity. Its worker's task has ended.
    pub fn close(&mut self, family: Family, id: u64) -> (r: bool)
        requires
            old(self).wf(),
            old(self).spec_held().contains_key(family) && old(self).spec_held()[family].id == id
                ==> old(self).spec_running().dom().len() < old(self).spec_held().dom().len(),
        ensures
            final(self).wf(),
            final(self).spec_next() == old(self).spec_next(),
            final(self).spec_running() == old(self).spec_running(),
            r == (old(self).spec_held().contains_key(family) && old(self).spec_held()[family].id == id),
            final(self).spec_held() == if r {
                old(self).spec_held().remove(family)
            } else {
                old(self).spec_held()
            },
    {
        self.sockets.retire(&family, id).is_some()
    }

    /// How many sockets there are.
    pub fn len(&self) -> (r: usize)
        requires
            self.wf(),
        ensures
            r == self.spec_held().dom().len(),
    {
        self.sockets.len()
    }
}

} // verus!
