//! Workers, each with its row, and the identities that tell a row's workers apart.
use vstd::prelude::*;

use crate::rows::{RowKey, Rows};

verus! {

/// No identity is left.
#[derive(Debug, Clone, Copy, PartialEq, Eq, Structural)]
pub struct Exhausted;

/// Why a worker was not taken in.
#[derive(Debug, Clone, Copy, PartialEq, Eq, Structural)]
pub enum Refused {
    Duplicate { id: u64 },
}

/// A worker's row.
#[derive(Debug)]
pub struct Held<R> {
    pub id: u64,
    pub cancelled: bool,
    pub record: R,
}

/// A task's number.
#[derive(Debug, Clone, Copy, PartialEq, Eq, Structural)]
pub struct TaskId(pub u64);

impl RowKey for TaskId {
    type Model = u64;

    open spec fn model(&self) -> u64 {
        self.0
    }

    fn same(&self, other: &Self) -> (r: bool) {
        self.0 == other.0
    }
}

/// Workers by key. A worker has a row until it is retired, and a task until that ends.
pub struct Workers<K: RowKey, R> {
    held: Rows<K, Held<R>>,
    running: Rows<TaskId, (K, u64)>,
    next: u64,
}

impl<K: RowKey + Copy, R> Workers<K, R> {
    /// The rows.
    pub closed spec fn spec_held(&self) -> Map<K::Model, Held<R>> {
        self.held@
    }

    /// The tasks that have not ended, each with its row's key and identity.
    pub closed spec fn spec_running(&self) -> Map<u64, (K, u64)> {
        self.running@
    }

    /// The next identity.
    pub closed spec fn spec_next(&self) -> u64 {
        self.next
    }

    /// No more tasks run than there are rows.
    pub closed spec fn wf(&self) -> bool {
        &&& self.held.wf()
        &&& self.running.wf()
        &&& self.held@.dom().finite()
        &&& self.running@.dom().finite()
        &&& self.running@.dom().len() <= self.held@.dom().len()
    }

    /// No workers.
    pub fn new() -> (r: Self)
        ensures
            r.wf(),
            r.spec_held() == Map::<K::Model, Held<R>>::empty(),
            r.spec_running() == Map::<u64, (K, u64)>::empty(),
            r.spec_next() == 0,
    {
        Workers { held: Rows::new(), running: Rows::new(), next: 0 }
    }

    /// An identity that no other worker has had.
    pub fn identity(&mut self) -> (r: Result<u64, Exhausted>)
        requires
            old(self).wf(),
        ensures
            final(self).wf(),
            final(self).spec_held() == old(self).spec_held(),
            final(self).spec_running() == old(self).spec_running(),
            match r {
                Ok(id) => id == old(self).spec_next() && final(self).spec_next() == id + 1,
                Err(_) => old(self).spec_next() == u64::MAX && final(self).spec_next() == u64::MAX,
            },
    {
        let id = self.next;
        match self.next.checked_add(1) {
            Some(next) => {
                self.next = next;
                Ok(id)
            },
            None => Err(Exhausted),
        }
    }

    /// Whether a worker could be taken in under a key.
    pub fn admits(&self, key: &K) -> (r: Result<(), Refused>)
        requires
            self.wf(),
        ensures
            r == (if self.spec_held().contains_key(key.model()) {
                Err(Refused::Duplicate { id: self.spec_held()[key.model()].id })
            } else {
                Ok::<(), Refused>(())
            }),
    {
        match self.held.get(key) {
            Some(held) => Err(Refused::Duplicate { id: held.id }),
            None => Ok(()),
        }
    }

    /// Takes a worker in, with the task it runs in. Where its key has a row already, its record comes back.
    pub fn enroll(&mut self, key: K, id: u64, record: R, task: TaskId) -> (r: Result<(), (R, Refused)>)
        requires
            old(self).wf(),
            !old(self).spec_running().contains_key(task.model()),
        ensures
            final(self).wf(),
            final(self).spec_next() == old(self).spec_next(),
            match r {
                Ok(_) => {
                    &&& !old(self).spec_held().contains_key(key.model())
                    &&& final(self).spec_held() == old(self).spec_held().insert(
                        key.model(),
                        Held { id, cancelled: false, record },
                    )
                    &&& final(self).spec_running() == old(self).spec_running().insert(
                        task.model(),
                        (key, id),
                    )
                },
                Err((given_back, why)) => {
                    &&& old(self).spec_held().contains_key(key.model())
                    &&& given_back == record
                    &&& why == (Refused::Duplicate { id: old(self).spec_held()[key.model()].id })
                    &&& final(self).spec_held() == old(self).spec_held()
                    &&& final(self).spec_running() == old(self).spec_running()
                },
            },
    {
        if let Err(why) = self.admits(&key) {
            return Err((record, why));
        }
        self.running.insert(task, (key, id));
        self.held.insert(key, Held { id, cancelled: false, record });
        Ok(())
    }

    /// A worker's row.
    pub fn get(&self, key: &K) -> (r: Option<&Held<R>>)
        requires
            self.wf(),
        ensures
            match r {
                Some(held) => self.spec_held().contains_key(key.model()) && *held
                    == self.spec_held()[key.model()],
                None => !self.spec_held().contains_key(key.model()),
            },
    {
        self.held.get(key)
    }

    /// Puts another record in a worker's row.
    pub fn replace(&mut self, key: K, record: R) -> (r: Option<R>)
        requires
            old(self).wf(),
        ensures
            final(self).wf(),
            final(self).spec_next() == old(self).spec_next(),
            final(self).spec_running() == old(self).spec_running(),
            match r {
                Some(before) => {
                    let held = old(self).spec_held()[key.model()];
                    &&& old(self).spec_held().contains_key(key.model())
                    &&& before == held.record
                    &&& final(self).spec_held() == old(self).spec_held().insert(
                        key.model(),
                        Held { id: held.id, cancelled: held.cancelled, record },
                    )
                },
                None => !old(self).spec_held().contains_key(key.model()) && final(self).spec_held()
                    == old(self).spec_held(),
            },
    {
        match self.held.remove(&key) {
            Some(held) => {
                self.held.insert(key, Held { id: held.id, cancelled: held.cancelled, record });
                proof {
                    assert(self.held@ =~= old(self).held@.insert(
                        key.model(),
                        Held { id: held.id, cancelled: held.cancelled, record },
                    ));
                    assert(self.held@.dom() =~= old(self).held@.dom());
                }
                Some(held.record)
            },
            None => {
                assert(self.held@ =~= old(self).held@);
                None
            },
        }
    }

    /// Whether a key has a row.
    pub fn contains(&self, key: &K) -> (r: bool)
        requires
            self.wf(),
        ensures
            r == self.spec_held().contains_key(key.model()),
    {
        self.held.contains(key)
    }

    /// Whether a key's row is the one of this identity.
    pub fn current(&self, key: &K, id: u64) -> (r: bool)
        requires
            self.wf(),
        ensures
            r == (self.spec_held().contains_key(key.model()) && self.spec_held()[key.model()].id == id),
    {
        match self.held.get(key) {
            Some(held) => held.id == id,
            None => false,
        }
    }

    /// How many rows there are.
    pub fn len(&self) -> (r: usize)
        requires
            self.wf(),
        ensures
            r == self.spec_held().dom().len(),
    {
        self.held.len()
    }

    /// Whether there are no rows.
    pub fn is_empty(&self) -> (r: bool)
        requires
            self.wf(),
        ensures
            r == (self.spec_held().dom().len() == 0),
    {
        self.held.len() == 0
    }

    /// How many tasks still run.
    pub fn running(&self) -> (r: usize)
        requires
            self.wf(),
        ensures
            r == self.spec_running().dom().len(),
    {
        self.running.len()
    }

    /// Whether a task still runs.
    pub fn working(&self) -> (r: bool)
        requires
            self.wf(),
        ensures
            r == (self.spec_running().dom().len() != 0),
    {
        self.running.len() != 0
    }

    /// Cancels a worker.
    pub fn cancel(&mut self, key: K)
        requires
            old(self).wf(),
        ensures
            final(self).wf(),
            final(self).spec_next() == old(self).spec_next(),
            final(self).spec_running() == old(self).spec_running(),
            final(self).spec_held() == if old(self).spec_held().contains_key(key.model()) {
                let held = old(self).spec_held()[key.model()];
                old(self).spec_held().insert(
                    key.model(),
                    Held { id: held.id, cancelled: true, record: held.record },
                )
            } else {
                old(self).spec_held()
            },
    {
        match self.held.remove(&key) {
            Some(held) => {
                self.held.insert(key, Held { id: held.id, cancelled: true, record: held.record });
                proof {
                    assert(self.held@ =~= old(self).held@.insert(
                        key.model(),
                        Held { id: held.id, cancelled: true, record: held.record },
                    ));
                    assert(self.held@.dom() =~= old(self).held@.dom());
                }
            },
            None => {
                assert(self.held@ =~= old(self).held@);
            },
        }
    }

    /// Cancels every worker.
    pub fn cancel_all(&mut self)
        requires
            old(self).wf(),
        ensures
            final(self).wf(),
            final(self).spec_next() == old(self).spec_next(),
            final(self).spec_running() == old(self).spec_running(),
            final(self).spec_held() == old(self).spec_held().map_values(
                |held: Held<R>| Held { id: held.id, cancelled: true, record: held.record },
            ),
    {
        let ghost before = self.held@;
        let ghost f = |held: Held<R>| Held { id: held.id, cancelled: true, record: held.record };
        let mut done: Rows<K, Held<R>> = Rows::new();
        let mut count: usize = self.held.len();
        let ghost running = self.running@;
        let ghost next = self.next;
        while count > 0
            invariant
                self.held.wf(),
                done.wf(),
                count == self.held.entries().len(),
                self.running@ == running,
                self.running.wf(),
                self.next == next,
                f == (|held: Held<R>| Held { id: held.id, cancelled: true, record: held.record }),
                forall|k: K::Model|
                    #![trigger before.contains_key(k)]
                    #![trigger self.held@.contains_key(k)]
                    #![trigger done@.contains_key(k)]
                    {
                        &&& before.contains_key(k) == (self.held@.contains_key(k) || done@.contains_key(k))
                        &&& self.held@.contains_key(k) ==> !done@.contains_key(k) && self.held@[k] == before[k]
                        &&& done@.contains_key(k) ==> done@[k] == f(before[k])
                    },
            decreases count,
        {
            if let Some((key, held)) = self.held.pop() {
                done.insert(key, Held { id: held.id, cancelled: true, record: held.record });
            }
            count -= 1;
        }
        proof {
            self.held.lemma_entries();
            assert(self.held@.dom() =~= Set::<K::Model>::empty());
            assert(done@ =~= before.map_values(f));
            assert(done@.dom() =~= before.dom());
        }
        self.held = done;
    }

    /// Notes that a task ended, and tells whose it was.
    pub fn finished(&mut self, task: TaskId) -> (r: Option<(K, u64)>)
        requires
            old(self).wf(),
        ensures
            final(self).wf(),
            final(self).spec_next() == old(self).spec_next(),
            final(self).spec_held() == old(self).spec_held(),
            final(self).spec_running() == old(self).spec_running().remove(task.model()),
            match r {
                Some(whose) => old(self).spec_running().contains_key(task.model()) && whose
                    == old(self).spec_running()[task.model()],
                None => !old(self).spec_running().contains_key(task.model()),
            },
    {
        let whose = self.running.remove(&task);
        proof {
            if !old(self).running@.contains_key(task.model()) {
                assert(self.running@ =~= old(self).running@);
            }
        }
        whose
    }

    /// Gives up the row of a key, if it is the one of this identity. A worker's task ends before its row goes.
    pub fn retire(&mut self, key: &K, id: u64) -> (r: Option<R>)
        requires
            old(self).wf(),
            old(self).spec_held().contains_key(key.model()) && old(self).spec_held()[key.model()].id == id
                ==> old(self).spec_running().dom().len() < old(self).spec_held().dom().len(),
        ensures
            final(self).wf(),
            final(self).spec_next() == old(self).spec_next(),
            final(self).spec_running() == old(self).spec_running(),
            match r {
                Some(record) => {
                    &&& old(self).spec_held().contains_key(key.model())
                    &&& old(self).spec_held()[key.model()].id == id
                    &&& record == old(self).spec_held()[key.model()].record
                    &&& final(self).spec_held() == old(self).spec_held().remove(key.model())
                },
                None => {
                    &&& !(old(self).spec_held().contains_key(key.model())
                        && old(self).spec_held()[key.model()].id == id)
                    &&& final(self).spec_held() == old(self).spec_held()
                },
            },
    {
        if !self.current(key, id) {
            return None;
        }
        match self.held.remove(key) {
            Some(held) => Some(held.record),
            None => None,
        }
    }
}

/// A late end of a worker that was retired finds nothing, whatever was taken in under its key since: no two
/// workers have the same identity.
pub proof fn law_late_ends_are_stale<K: RowKey + Copy, R>(
    held: Map<K::Model, Held<R>>,
    key: K,
    retired: u64,
    id: u64,
    record: R,
)
    requires
        held.contains_key(key.model()),
        held[key.model()].id == retired,
        id != retired,
    ensures
        !held.remove(key.model()).contains_key(key.model()),
        held.remove(key.model()).insert(
            key.model(),
            Held { id, cancelled: false, record },
        )[key.model()].id != retired,
{
}

} // verus!
