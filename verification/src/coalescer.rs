//! Puts the reports of one place in the code together for a while.
use vstd::prelude::*;

use crate::nonfatal::{
    add_coalesced_details, coalesced, nonfatal_views, site_of, NonfatalReport, NonfatalState, SiteKey,
};
use crate::protocol::DaemonErrorReport;
use crate::rows::{Dated, RowKey, Rows};

verus! {

/// The reports of one place that wait: how many, the last of them, and until when.
#[derive(Debug)]
pub struct PendingBatch {
    pub deadline: u64,
    pub suppressed_count: usize,
    pub last: Option<NonfatalReport>,
}

impl PendingBatch {
    /// A batch that stands for reports has the last of them.
    pub open spec fn wf(self) -> bool {
        self.suppressed_count > 0 ==> self.last is Some
    }
}

impl Dated for PendingBatch {
    open spec fn due(&self) -> u64 {
        self.deadline
    }

    fn deadline(&self) -> (r: u64) {
        self.deadline
    }
}

/// A place in the code as it is compared.
pub type Place = (Seq<char>, u32, u32);

/// What waits, and what is ready.
#[verifier::ext_equal]
pub struct Emission {
    pub pending: Map<Place, PendingBatch>,
    pub ready: Seq<NonfatalState>,
}

/// What a batch is told as.
pub open spec fn summary(batch: PendingBatch, window: u64) -> NonfatalState {
    NonfatalState {
        call_id: batch.last->0.call_id,
        report: coalesced(batch.last->0.report@, batch.suppressed_count as nat, window as nat),
    }
}

/// Deals with the batch of one place whose time has come: one that stands for nothing goes, one that there is no
/// room for waits on, and any other is told and starts over.
pub open spec fn emit_one(e: Emission, place: Place, now: u64, window: u64, room: nat) -> Emission {
    let batch = e.pending[place];
    if batch.suppressed_count == 0 || batch.last is None {
        Emission { pending: e.pending.remove(place), ..e }
    } else if e.ready.len() >= room {
        Emission {
            pending: e.pending.insert(
                place,
                PendingBatch { deadline: (now + window) as u64, ..batch },
            ),
            ..e
        }
    } else {
        Emission {
            pending: e.pending.insert(
                place,
                PendingBatch { deadline: (now + window) as u64, suppressed_count: 0, last: None },
            ),
            ready: e.ready.push(summary(batch, window)),
        }
    }
}

/// Deals with the first `n` places of an order, one after the other.
pub open spec fn emit_all(
    e: Emission,
    order: Seq<Place>,
    n: int,
    now: u64,
    window: u64,
    room: nat,
) -> Emission
    decreases n,
{
    if n <= 0 {
        e
    } else {
        emit_one(emit_all(e, order, n - 1, now, window, room), order[n - 1], now, window, room)
    }
}

/// Whether an order names every place whose time has come once, and no other.
pub open spec fn due_order(pending: Map<Place, PendingBatch>, now: u64, order: Seq<Place>) -> bool {
    &&& order.no_duplicates()
    &&& forall|place: Place|
        #[trigger] order.contains(place) <==> pending.contains_key(place) && pending[place].deadline <= now
}

/// Whether every due batch was dealt with, in some order.
pub open spec fn emitted(
    before: Map<Place, PendingBatch>,
    after: Emission,
    now: u64,
    window: u64,
    room: nat,
) -> bool {
    exists|order: Seq<Place>|
        #[trigger] due_order(before, now, order) && after == emit_all(
            Emission { pending: before, ready: Seq::empty() },
            order,
            order.len() as int,
            now,
            window,
            room,
        )
}

/// What a report becomes: it is counted where its place already waits, it is ready where there is room, and it
/// waits where there is none.
pub open spec fn pushed(e: Emission, report: NonfatalReport, now: u64, window: u64, room: nat) -> Emission {
    let place = site_of(report.report@);
    let deadline = (now + window) as u64;
    if e.pending.contains_key(place) {
        let batch = e.pending[place];
        let count = if batch.suppressed_count < usize::MAX {
            (batch.suppressed_count + 1) as usize
        } else {
            usize::MAX
        };
        Emission {
            pending: e.pending.insert(
                place,
                PendingBatch { suppressed_count: count, last: Some(report), ..batch },
            ),
            ..e
        }
    } else if e.ready.len() < room {
        Emission {
            pending: e.pending.insert(
                place,
                PendingBatch { deadline, suppressed_count: 0, last: None },
            ),
            ready: e.ready.push(report@),
        }
    } else {
        Emission {
            pending: e.pending.insert(
                place,
                PendingBatch { deadline, suppressed_count: 1, last: Some(report) },
            ),
            ..e
        }
    }
}

/// What the first `n` places of an order are told as.
pub open spec fn flush_all(
    pending: Map<Place, PendingBatch>,
    order: Seq<Place>,
    n: int,
    window: u64,
) -> Seq<NonfatalState>
    decreases n,
{
    if n <= 0 {
        Seq::empty()
    } else {
        let told = flush_all(pending, order, n - 1, window);
        let batch = pending[order[n - 1]];
        if batch.suppressed_count > 0 && batch.last is Some {
            told.push(summary(batch, window))
        } else {
            told
        }
    }
}

/// Whether an order names every place once, and no other.
pub open spec fn full_order(pending: Map<Place, PendingBatch>, order: Seq<Place>) -> bool {
    &&& order.no_duplicates()
    &&& forall|place: Place| #[trigger] order.contains(place) <==> pending.contains_key(place)
}

/// Puts the reports of one place together.
pub struct SiteCoalescer {
    window: u64,
    pending: Rows<SiteKey, PendingBatch>,
}

impl SiteCoalescer {
    /// For how long reports of one place are put together.
    pub closed spec fn spec_window(&self) -> u64 {
        self.window
    }

    /// What waits, by place.
    pub closed spec fn spec_pending(&self) -> Map<Place, PendingBatch> {
        self.pending@
    }

    /// Every batch that stands for reports has the last of them.
    pub closed spec fn wf(&self) -> bool {
        &&& self.pending.wf()
        &&& forall|place: Place| #[trigger] self.pending@.contains_key(place) ==> self.pending@[place].wf()
    }

    /// A batch that counts reports holds the last of them, whichever place it is of.
    pub proof fn lemma_wf(&self)
        requires
            self.wf(),
        ensures
            forall|place: Place|
                #[trigger] self.spec_pending().contains_key(place) ==> self.spec_pending()[place].wf(),
    {
    }

    /// Nothing waits.
    pub fn new(window: u64) -> (r: Self)
        ensures
            r.wf(),
            r.spec_window() == window,
            r.spec_pending() == Map::<Place, PendingBatch>::empty(),
    {
        SiteCoalescer { window, pending: Rows::new() }
    }

    /// Takes a report. The ready ones come back.
    pub fn push(
        &mut self,
        now: u64,
        call_id: Option<u64>,
        report: DaemonErrorReport,
        room: usize,
    ) -> (r: Vec<NonfatalReport>)
        requires
            old(self).wf(),
            now + old(self).spec_window() <= u64::MAX,
        ensures
            final(self).wf(),
            final(self).spec_window() == old(self).spec_window(),
            exists|e: Emission|
                #[trigger] emitted(old(self).spec_pending(), e, now, old(self).spec_window(), room as nat)
                    && pushed(
                    e,
                    NonfatalReport { call_id, report },
                    now,
                    old(self).spec_window(),
                    room as nat,
                ) == (Emission { pending: final(self).spec_pending(), ready: nonfatal_views(r@) }),
    {
        let mut ready = self.emit_due(now, room);
        let ghost e = Emission { pending: self.pending@, ready: nonfatal_views(ready@) };
        let key = SiteKey::of(&report);
        match self.pending.remove(&key) {
            Some(batch) => {
                let count: usize = if batch.suppressed_count < usize::MAX {
                    batch.suppressed_count + 1
                } else {
                    usize::MAX
                };
                let next = PendingBatch {
                    deadline: batch.deadline,
                    suppressed_count: count,
                    last: Some(NonfatalReport { call_id, report }),
                };
                self.pending.insert(key, next);
                assert(self.pending@ =~= e.pending.insert(site_of(report@), next));
            },
            None => {
                assert(self.pending@ =~= e.pending);
                if ready.len() < room {
                    ready.push(NonfatalReport { call_id, report });
                    self.pending.insert(
                        key,
                        PendingBatch { deadline: now + self.window, suppressed_count: 0, last: None },
                    );
                    assert(nonfatal_views(ready@) =~= e.ready.push(NonfatalReport { call_id, report }@));
                } else {
                    self.pending.insert(
                        key,
                        PendingBatch {
                            deadline: now + self.window,
                            suppressed_count: 1,
                            last: Some(NonfatalReport { call_id, report }),
                        },
                    );
                }
            },
        }
        ready
    }

    fn due_keys(&self, now: u64) -> (r: Vec<SiteKey>)
        requires
            self.pending.wf(),
        ensures
            due_order(self.pending@, now, Seq::new(r@.len(), |i: int| r@[i].model())),
    {
        let mut keys: Vec<SiteKey> = Vec::new();
        let ghost entries = self.pending.entries();
        let ghost mut at: Seq<int> = Seq::empty();
        let count: usize = self.pending.len();
        let mut i: usize = 0;
        while i < count
            invariant
                i <= count,
                self.pending.wf(),
                entries == self.pending.entries(),
                count == entries.len(),
                at.len() == keys@.len(),
                forall|j: int|
                    0 <= j < at.len() ==> 0 <= #[trigger] at[j] < i && entries[at[j]].0.model()
                        == keys@[j].model() && entries[at[j]].1.deadline <= now,
                forall|a: int, b: int| 0 <= a < b < at.len() ==> at[a] < at[b],
                forall|a: int|
                    0 <= a < i && (#[trigger] entries[a]).1.deadline <= now ==> at.contains(a),
            decreases count - i,
        {
            let ghost before = at;
            if self.pending.value_at(i).deadline <= now {
                let key = self.pending.key_at(i).copied();
                keys.push(key);
                proof {
                    at = at.push(i as int);
                    assert(at[before.len() as int] == i);
                    assert forall|a: int| 0 <= a < i + 1 && (
                    #[trigger] entries[a]).1.deadline <= now implies at.contains(a) by {
                        if a < i {
                            let j = before.index_of(a);
                            assert(before.contains(a));
                            assert(at[j] == a);
                        }
                    }
                }
            }
            i += 1;
        }
        proof {
            let order = Seq::new(keys@.len(), |i: int| keys@[i].model());
            let pending = self.pending@;
            self.pending.lemma_entries();
            assert forall|a: int, b: int| 0 <= a < order.len() && 0 <= b < order.len() && a != b implies order[a]
                != order[b] by {
                if a < b {
                    assert(at[a] < at[b]);
                } else {
                    assert(at[b] < at[a]);
                }
                assert(entries[at[a]].0.model() != entries[at[b]].0.model());
            }
            assert forall|place: Place| #[trigger] order.contains(place) <==> pending.contains_key(place)
                && pending[place].deadline <= now by {
                if order.contains(place) {
                    let j = choose|j: int| 0 <= j < order.len() && order[j] == place;
                    assert(entries[at[j]].0.model() == place);
                }
                if pending.contains_key(place) && pending[place].deadline <= now {
                    let a = choose|a: int|
                        0 <= a < entries.len() && (#[trigger] entries[a]).0.model() == place;
                    let j = at.index_of(a);
                    assert(at.contains(a));
                    assert(order[j] == place);
                }
            }
        }
        keys
    }

    /// Tells what waited long enough, as far as there is room.
    pub fn emit_due(&mut self, now: u64, room: usize) -> (r: Vec<NonfatalReport>)
        requires
            old(self).wf(),
            now + old(self).spec_window() <= u64::MAX,
        ensures
            final(self).wf(),
            final(self).spec_window() == old(self).spec_window(),
            emitted(
                old(self).spec_pending(),
                Emission { pending: final(self).spec_pending(), ready: nonfatal_views(r@) },
                now,
                old(self).spec_window(),
                room as nat,
            ),
    {
        let keys = self.due_keys(now);
        let ghost before = self.pending@;
        let ghost order = Seq::new(keys@.len(), |i: int| keys@[i].model());
        let ghost start = Emission { pending: before, ready: Seq::empty() };
        let ghost window = self.window;
        let mut ready: Vec<NonfatalReport> = Vec::new();
        proof {
            assert(nonfatal_views(ready@) =~= Seq::empty());
            assert forall|j: int| 0 <= j < keys@.len() implies before.contains_key(
                (#[trigger] keys@[j]).model(),
            ) by {
                assert(order[j] == keys@[j].model());
                assert(order.contains(order[j]));
            }
        }
        let mut i: usize = 0;
        while i < keys.len()
            invariant
                i <= keys@.len(),
                self.wf(),
                self.window == window,
                now + window <= u64::MAX,
                due_order(before, now, order),
                order == Seq::new(keys@.len(), |i: int| keys@[i].model()),
                start == (Emission { pending: before, ready: Seq::empty() }),
                emit_all(start, order, i as int, now, window, room as nat) == (Emission {
                    pending: self.pending@,
                    ready: nonfatal_views(ready@),
                }),
                forall|j: int|
                    i <= j < keys@.len() ==> self.pending@.contains_key((#[trigger] keys@[j]).model()),
            decreases keys@.len() - i,
        {
            let key = keys[i].copied();
            let ghost e = Emission { pending: self.pending@, ready: nonfatal_views(ready@) };
            let ghost place = key.model();
            proof {
                assert(order[i as int] == place);
                assert(self.pending@.contains_key(keys@[i as int].model()));
                assert forall|j: int| i < j < keys@.len() implies (#[trigger] keys@[j]).model() != place by {
                    assert(order[j] != order[i as int]);
                }
            }
            if let Some(batch) = self.pending.remove(&key) {
                let PendingBatch { deadline: _, suppressed_count, last } = batch;
                if suppressed_count != 0 {
                    if ready.len() >= room {
                        let next = PendingBatch { deadline: now + self.window, suppressed_count, last };
                        self.pending.insert(key, next);
                        assert(self.pending@ =~= e.pending.insert(place, next));
                    } else if let Some(mut report) = last {
                        add_coalesced_details(&mut report.report, suppressed_count, self.window);
                        ready.push(report);
                        let next = PendingBatch {
                            deadline: now + self.window,
                            suppressed_count: 0,
                            last: None,
                        };
                        self.pending.insert(key, next);
                        assert(self.pending@ =~= e.pending.insert(place, next));
                        assert(nonfatal_views(ready@) =~= e.ready.push(summary(batch, window)));
                    }
                }
            }
            i += 1;
        }
        proof {
            assert(due_order(before, now, order));
        }
        ready
    }

    /// Tells everything that waits. Nothing waits afterwards.
    pub fn flush(&mut self) -> (r: Vec<NonfatalReport>)
        requires
            old(self).wf(),
        ensures
            final(self).wf(),
            final(self).spec_window() == old(self).spec_window(),
            final(self).spec_pending() == Map::<Place, PendingBatch>::empty(),
            exists|order: Seq<Place>|
                #[trigger] full_order(old(self).spec_pending(), order) && nonfatal_views(r@) == flush_all(
                    old(self).spec_pending(),
                    order,
                    order.len() as int,
                    old(self).spec_window(),
                ),
    {
        let keys = self.due_keys(u64::MAX);
        let ghost before = self.pending@;
        let ghost order = Seq::new(keys@.len(), |i: int| keys@[i].model());
        let ghost window = self.window;
        proof {
            assert(due_order(before, u64::MAX, order));
            assert(full_order(before, order));
            assert forall|place: Place| #[trigger] before.contains_key(place) implies exists|j: int|
                0 <= j < order.len() && #[trigger] order[j] == place by {
                assert(order.contains(place));
            }
        }
        let mut ready: Vec<NonfatalReport> = Vec::new();
        assert(nonfatal_views(ready@) =~= Seq::empty());
        let mut i: usize = 0;
        while i < keys.len()
            invariant
                i <= keys@.len(),
                self.wf(),
                self.window == window,
                full_order(before, order),
                order == Seq::new(keys@.len(), |i: int| keys@[i].model()),
                nonfatal_views(ready@) == flush_all(before, order, i as int, window),
                forall|place: Place|
                    #[trigger] self.pending@.contains_key(place) <==> (before.contains_key(place) && exists|j: int|
                        i <= j < order.len() && #[trigger] order[j] == place),
                forall|place: Place|
                    #[trigger] self.pending@.contains_key(place) ==> self.pending@[place] == before[place],
            decreases keys@.len() - i,
        {
            let ghost place = keys@[i as int].model();
            let ghost now_pending = self.pending@;
            let ghost told = nonfatal_views(ready@);
            proof {
                assert(order[i as int] == place);
                assert(order.contains(place));
            }
            if let Some(batch) = self.pending.remove(&keys[i]) {
                let PendingBatch { deadline: _, suppressed_count, last } = batch;
                if suppressed_count > 0 {
                    if let Some(mut report) = last {
                        add_coalesced_details(&mut report.report, suppressed_count, self.window);
                        ready.push(report);
                        assert(nonfatal_views(ready@) =~= told.push(summary(batch, window)));
                    }
                }
            }
            proof {
                assert forall|other: Place| #[trigger] self.pending@.contains_key(other) <==> (
                before.contains_key(other) && exists|j: int| i < j < order.len() && #[trigger] order[j] == other) by {
                    if now_pending.contains_key(other) && other != place {
                        let j = choose|j: int| i <= j < order.len() && #[trigger] order[j] == other;
                        assert(j != i);
                    }
                    if exists|j: int| i < j < order.len() && #[trigger] order[j] == other {
                        let j = choose|j: int| i < j < order.len() && #[trigger] order[j] == other;
                        assert(order[j] != order[i as int]);
                    }
                }
            }
            i += 1;
        }
        proof {
            assert(self.pending@ =~= Map::<Place, PendingBatch>::empty());
            assert(full_order(old(self).spec_pending(), order));
            assert(i == order.len());
            assert(nonfatal_views(ready@) == flush_all(
                old(self).spec_pending(),
                order,
                order.len() as int,
                old(self).spec_window(),
            ));
        }
        ready
    }

    /// When the next batch is due.
    pub fn next_deadline(&self) -> (r: Option<u64>)
        requires
            self.wf(),
        ensures
            match r {
                Some(t) => {
                    &&& exists|place: Place|
                        #[trigger] self.spec_pending().contains_key(place)
                            && self.spec_pending()[place].deadline == t
                    &&& forall|place: Place|
                        #[trigger] self.spec_pending().contains_key(place) ==> t
                            <= self.spec_pending()[place].deadline
                },
                None => self.spec_pending() == Map::<Place, PendingBatch>::empty(),
            },
    {
        let r = self.pending.next_deadline();
        proof {
            if r is None {
                assert(self.pending@ =~= Map::<Place, PendingBatch>::empty());
            } else {
                let place = choose|place: Place|
                    #[trigger] self.pending@.contains_key(place) && self.pending@[place].due() == r->0;
                assert(self.spec_pending().contains_key(place));
            }
        }
        r
    }
}

/// No report of a place is lost when its time comes: its batch waits on with the same count, or it is told with
/// that count and counts from zero.
pub proof fn law_suppressed_are_kept_or_told(e: Emission, place: Place, now: u64, window: u64, room: nat)
    requires
        e.pending.contains_key(place),
        e.pending[place].wf(),
        e.pending[place].suppressed_count > 0,
    ensures
        ({
            let after = emit_one(e, place, now, window, room);
            let batch = e.pending[place];
            &&& after.pending.contains_key(place)
            &&& {
                ||| after.ready == e.ready && after.pending[place].suppressed_count == batch.suppressed_count
                    && after.pending[place].last == batch.last
                ||| after.ready == e.ready.push(summary(batch, window))
                    && after.pending[place].suppressed_count == 0
            }
        }),
{
}

/// No report that arrives is lost: it is ready at once, or its place counts one more and keeps it.
pub proof fn law_pushed_is_ready_or_counted(
    e: Emission,
    report: NonfatalReport,
    now: u64,
    window: u64,
    room: nat,
)
    ensures
        ({
            let after = pushed(e, report, now, window, room);
            let place = site_of(report.report@);
            let count = if e.pending.contains_key(place) { e.pending[place].suppressed_count as int } else { 0 };
            &&& after.pending.contains_key(place)
            &&& {
                ||| after.ready == e.ready.push(report@) && !e.pending.contains_key(place)
                ||| after.ready == e.ready && after.pending[place].last == Some(report) && (count < usize::MAX
                    ==> after.pending[place].suppressed_count == count + 1)
            }
        }),
{
}

proof fn lemma_sites(e: Emission, order: Seq<Place>, n: int, now: u64, window: u64, room: nat)
    requires
        forall|i: int| 0 <= i < order.len() ==> e.pending.contains_key(#[trigger] order[i]),
        n <= order.len(),
    ensures
        forall|place: Place|
            #[trigger] emit_all(e, order, n, now, window, room).pending.contains_key(place)
                ==> e.pending.contains_key(place),
    decreases n,
{
    if n > 0 {
        lemma_sites(e, order, n - 1, now, window, room);
        let mid = emit_all(e, order, n - 1, now, window, room);
        let after = emit_all(e, order, n, now, window, room);
        assert forall|place: Place| #[trigger] after.pending.contains_key(place) implies e.pending.contains_key(
            place,
        ) by {
            assert(e.pending.contains_key(order[n - 1]));
            if place != order[n - 1] {
                assert(mid.pending.contains_key(place));
            }
        }
    }
}

/// However the reports of a place vary, it has one batch: taking a report opens a batch for no other place than
/// its own, and none that was not there before.
pub proof fn law_one_batch_per_site(
    before: Map<Place, PendingBatch>,
    e: Emission,
    report: NonfatalReport,
    now: u64,
    window: u64,
    room: nat,
    place: Place,
)
    requires
        emitted(before, e, now, window, room),
        pushed(e, report, now, window, room).pending.contains_key(place),
    ensures
        before.contains_key(place) || place == site_of(report.report@),
{
    let start = Emission { pending: before, ready: Seq::empty() };
    let order = choose|order: Seq<Place>|
        #[trigger] due_order(before, now, order) && e == emit_all(
            start,
            order,
            order.len() as int,
            now,
            window,
            room,
        );
    assert forall|i: int| 0 <= i < order.len() implies before.contains_key(#[trigger] order[i]) by {
        assert(order.contains(order[i]));
    }
    lemma_sites(start, order, order.len() as int, now, window, room);
}

proof fn lemma_room(e: Emission, order: Seq<Place>, n: int, now: u64, window: u64, room: nat)
    requires
        e.ready.len() <= room,
    ensures
        emit_all(e, order, n, now, window, room).ready.len() <= room,
    decreases n,
{
    if n > 0 {
        lemma_room(e, order, n - 1, now, window, room);
    }
}

/// Never is more ready than there is room for.
pub proof fn law_ready_fits_the_room(
    before: Map<Place, PendingBatch>,
    e: Emission,
    report: NonfatalReport,
    now: u64,
    window: u64,
    room: nat,
)
    requires
        emitted(before, e, now, window, room),
    ensures
        e.ready.len() <= room,
        pushed(e, report, now, window, room).ready.len() <= room,
{
    let order = choose|order: Seq<Place>|
        #[trigger] due_order(before, now, order) && e == emit_all(
            Emission { pending: before, ready: Seq::empty() },
            order,
            order.len() as int,
            now,
            window,
            room,
        );
    lemma_room(
        Emission { pending: before, ready: Seq::empty() },
        order,
        order.len() as int,
        now,
        window,
        room,
    );
}

/// The first report of a place goes out at once where there is room, and opens a window for the place. Those that
/// follow while the window is open are held back and counted, and the last of them is kept. Without room even the first
/// is held back. Every other place stays as it was.
pub proof fn law_the_first_of_a_place_goes_out_at_once(
    e: Emission,
    report: NonfatalReport,
    now: u64,
    window: u64,
    room: nat,
    other: Place,
)
    requires
        now + window <= u64::MAX,
    ensures
        ({
            let place = (report.report@.file, report.report@.line, report.report@.column);
            let after = pushed(e, report, now, window, room);
            &&& !e.pending.contains_key(place) && e.ready.len() < room ==> {
                &&& after.ready == e.ready.push(report@)
                &&& after.pending[place].deadline == now + window
                &&& after.pending[place].suppressed_count == 0
                &&& after.pending[place].last is None
            }
            &&& !e.pending.contains_key(place) && e.ready.len() >= room ==> {
                &&& after.ready == e.ready
                &&& after.pending[place].deadline == now + window
                &&& after.pending[place].suppressed_count == 1
                &&& after.pending[place].last == Some(report)
            }
            &&& e.pending.contains_key(place) ==> {
                &&& after.ready == e.ready
                &&& after.pending[place].deadline == e.pending[place].deadline
                &&& after.pending[place].last == Some(report)
                &&& e.pending[place].suppressed_count < usize::MAX ==> after.pending[place].suppressed_count
                    == e.pending[place].suppressed_count + 1
            }
            &&& after.pending.contains_key(place)
            &&& other != place ==> after.pending.contains_key(other) == e.pending.contains_key(other)
            &&& other != place && e.pending.contains_key(other) ==> after.pending[other] == e.pending[other]
        }),
{
}

/// When a window closes, what was held back is told in one report and the next window opens, where there is room. Where
/// there is none it is held back for another window. A place that nothing was held back of is forgotten, and its next
/// report goes out at once. Every other place stays as it was.
pub proof fn law_a_closed_window_is_told_of_once(
    e: Emission,
    place: Place,
    now: u64,
    window: u64,
    room: nat,
    other: Place,
)
    requires
        e.pending.contains_key(place),
        e.pending[place].wf(),
        now + window <= u64::MAX,
    ensures
        ({
            let batch = e.pending[place];
            let after = emit_one(e, place, now, window, room);
            &&& batch.suppressed_count == 0 ==> !after.pending.contains_key(place) && after.ready == e.ready
            &&& batch.suppressed_count > 0 && e.ready.len() < room ==> {
                &&& after.ready.len() == e.ready.len() + 1
                &&& after.ready.subrange(0, e.ready.len() as int) == e.ready
                &&& after.ready.last().call_id == batch.last->0.call_id
                &&& after.ready.last().report == coalesced(
                    batch.last->0.report@,
                    batch.suppressed_count as nat,
                    window as nat,
                )
                &&& after.pending.contains_key(place)
                &&& after.pending[place].deadline == now + window
                &&& after.pending[place].suppressed_count == 0
                &&& after.pending[place].last is None
            }
            &&& batch.suppressed_count > 0 && e.ready.len() >= room ==> {
                &&& after.ready == e.ready
                &&& after.pending.contains_key(place)
                &&& after.pending[place].deadline == now + window
                &&& after.pending[place].suppressed_count == batch.suppressed_count
                &&& after.pending[place].last == batch.last
            }
            &&& other != place ==> after.pending.contains_key(other) == e.pending.contains_key(other)
            &&& other != place && e.pending.contains_key(other) ==> after.pending[other] == e.pending[other]
        }),
{
    let after = emit_one(e, place, now, window, room);
    if e.pending[place].suppressed_count > 0 && e.ready.len() < room {
        assert(after.ready.subrange(0, e.ready.len() as int) =~= e.ready);
    }
}

/// The windows that close at a time are those whose deadline has come. A window that has not closed stays as it was.
pub proof fn law_only_windows_that_are_due_close(
    before: Map<Place, PendingBatch>,
    after: Emission,
    now: u64,
    window: u64,
    room: nat,
    place: Place,
)
    requires
        emitted(before, after, now, window, room),
        before.contains_key(place),
        now < before[place].deadline,
    ensures
        after.pending.contains_key(place),
        after.pending[place] == before[place],
{
    let start = Emission { pending: before, ready: Seq::empty() };
    let order = choose|order: Seq<Place>|
        #[trigger] due_order(before, now, order) && after == emit_all(
            start,
            order,
            order.len() as int,
            now,
            window,
            room,
        );
    assert(!order.contains(place));
    lemma_untouched(start, order, order.len() as int, now, window, room, place);
}

proof fn lemma_untouched(
    e: Emission,
    order: Seq<Place>,
    n: int,
    now: u64,
    window: u64,
    room: nat,
    place: Place,
)
    requires
        n <= order.len(),
        !order.contains(place),
        e.pending.contains_key(place),
    ensures
        emit_all(e, order, n, now, window, room).pending.contains_key(place),
        emit_all(e, order, n, now, window, room).pending[place] == e.pending[place],
    decreases n,
{
    if n > 0 {
        lemma_untouched(e, order, n - 1, now, window, room, place);
        assert(order[n - 1] != place);
    }
}

/// A flush tells of every place that something was held back of, in its order, and of no other.
pub proof fn law_a_flush_tells_all_that_was_held_back(
    pending: Map<Place, PendingBatch>,
    order: Seq<Place>,
    n: int,
    window: u64,
)
    requires
        0 <= n < order.len(),
        pending[order[n]].wf(),
    ensures
        flush_all(pending, order, 0, window).len() == 0,
        pending[order[n]].suppressed_count == 0 ==> flush_all(pending, order, n + 1, window) == flush_all(
            pending,
            order,
            n,
            window,
        ),
        pending[order[n]].suppressed_count > 0 ==> {
            let batch = pending[order[n]];
            flush_all(pending, order, n + 1, window) == flush_all(pending, order, n, window).push(
                NonfatalState {
                    call_id: batch.last->0.call_id,
                    report: coalesced(batch.last->0.report@, batch.suppressed_count as nat, window as nat),
                },
            )
        },
{
}

/// A flush goes through every place that waits, once.
pub proof fn law_a_flush_goes_through_every_place(pending: Map<Place, PendingBatch>, order: Seq<Place>, place: Place)
    requires
        full_order(pending, order),
    ensures
        order.contains(place) <==> pending.contains_key(place),
        order.no_duplicates(),
{
}

} // verus!
