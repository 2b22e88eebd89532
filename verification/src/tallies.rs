//! That no report is lost or counted twice, over everything that is ever asked of a coalescer.
use vstd::prelude::*;

use crate::coalescer::{
    due_order, emit_all, emit_one, emitted, flush_all, full_order, pushed, summary, Emission, PendingBatch, Place,
};
use crate::nonfatal::{coalesced, site_of, NonfatalReport, NonfatalState};

verus! {

/// What is asked of a coalescer.
pub enum Call {
    Push { now: u64, report: NonfatalReport, room: nat },
    EmitDue { now: u64, room: nat },
    Flush,
}

/// Whether a call left `after` behind and gave `told`.
pub open spec fn called(
    before: Map<Place, PendingBatch>,
    call: Call,
    window: u64,
    after: Map<Place, PendingBatch>,
    told: Seq<NonfatalState>,
) -> bool {
    match call {
        Call::Push { now, report, room } => exists|e: Emission|
            #[trigger] emitted(before, e, now, window, room) && pushed(e, report, now, window, room) == (Emission {
                pending: after,
                ready: told,
            }),
        Call::EmitDue { now, room } => emitted(before, Emission { pending: after, ready: told }, now, window, room),
        Call::Flush => after == Map::<Place, PendingBatch>::empty() && exists|order: Seq<Place>|
            #[trigger] full_order(before, order) && told == flush_all(before, order, order.len() as int, window),
    }
}

/// Whether these are calls of one coalescer from its beginning, what waited before each and after the last, and what
/// each of them gave.
pub open spec fn history(
    states: Seq<Map<Place, PendingBatch>>,
    calls: Seq<Call>,
    window: u64,
    told: Seq<Seq<NonfatalState>>,
) -> bool {
    &&& states.len() == calls.len() + 1
    &&& told.len() == calls.len()
    &&& states[0] == Map::<Place, PendingBatch>::empty()
    &&& forall|i: int|
        0 <= i < calls.len() ==> called(states[i], #[trigger] calls[i], window, states[i + 1], told[i])
}

/// How many of the first `n` calls brought a report.
pub open spec fn brought(calls: Seq<Call>, n: int) -> nat
    decreases n,
{
    if n <= 0 {
        0
    } else {
        brought(calls, n - 1) + if calls[n - 1] is Push { 1nat } else { 0 }
    }
}

/// How many reports wait.
pub open spec fn waiting(pending: Map<Place, PendingBatch>) -> nat
    decreases pending.dom().len(),
{
    if pending.dom().finite() && pending.dom().len() > 0 {
        let place = pending.dom().choose();
        pending[place].suppressed_count as nat + waiting(pending.remove(place))
    } else {
        0
    }
}

/// A report that stands for some reports of its place.
pub open spec fn summarized(last: NonfatalState, count: nat, window: u64) -> NonfatalState {
    NonfatalState { call_id: last.call_id, report: coalesced(last.report, count, window as nat) }
}

/// Whether what was told by a call stands for reports: for as many as a summary says, and for itself where it is the
/// report that the call brought, as it came.
pub open spec fn stands_for(call: Call, told: NonfatalState, count: Option<nat>, window: u64) -> bool {
    match count {
        Some(count) => count > 0 && exists|last: NonfatalState| told == #[trigger] summarized(last, count, window),
        None => call matches Call::Push { report, .. } && told == report@,
    }
}

/// How many reports something that was told stands for.
pub open spec fn weight(count: Option<nat>) -> nat {
    match count {
        Some(count) => count,
        None => 1,
    }
}

/// How many reports the first `n` things that were told stand for.
pub open spec fn weights(counts: Seq<Option<nat>>, n: int) -> nat
    decreases n,
{
    if n <= 0 {
        0
    } else {
        weights(counts, n - 1) + weight(counts[n - 1])
    }
}

/// Whether everything that a call told stands for the reports that are counted for it.
pub open spec fn accounts(call: Call, told: Seq<NonfatalState>, counts: Seq<Option<nat>>, window: u64) -> bool {
    &&& counts.len() == told.len()
    &&& forall|i: int| 0 <= i < told.len() ==> stands_for(call, #[trigger] told[i], counts[i], window)
}

/// How many reports everything stands for that the first `n` calls told.
pub open spec fn told_in_all(counts: Seq<Seq<Option<nat>>>, n: int) -> nat
    decreases n,
{
    if n <= 0 {
        0
    } else {
        told_in_all(counts, n - 1) + weights(counts[n - 1], counts[n - 1].len() as int)
    }
}

spec fn sound(pending: Map<Place, PendingBatch>) -> bool {
    &&& pending.dom().finite()
    &&& forall|place: Place| #[trigger] pending.contains_key(place) ==> pending[place].wf()
}

proof fn lemma_without(pending: Map<Place, PendingBatch>, place: Place)
    requires
        pending.dom().finite(),
        pending.contains_key(place),
    ensures
        waiting(pending) == pending[place].suppressed_count + waiting(pending.remove(place)),
    decreases pending.dom().len(),
{
    let other = pending.dom().choose();
    assert(pending.dom().contains(place));
    assert(pending.dom().contains(other));
    if other != place {
        let less = pending.remove(other);
        lemma_without(less, place);
        lemma_without(pending.remove(place), other);
        assert(less.remove(place) =~= pending.remove(place).remove(other));
    }
}

proof fn lemma_with(pending: Map<Place, PendingBatch>, place: Place, batch: PendingBatch)
    requires
        pending.dom().finite(),
    ensures
        waiting(pending.insert(place, batch)) == batch.suppressed_count + waiting(pending.remove(place)),
        pending.insert(place, batch).dom().finite(),
        waiting(pending) == waiting(pending.remove(place)) + if pending.contains_key(place) {
            pending[place].suppressed_count as nat
        } else {
            0
        },
{
    let more = pending.insert(place, batch);
    lemma_without(more, place);
    assert(more.remove(place) =~= pending.remove(place));
    if pending.contains_key(place) {
        lemma_without(pending, place);
    } else {
        assert(pending.remove(place) =~= pending);
    }
}

proof fn lemma_weights(counts: Seq<Option<nat>>, more: Option<nat>, n: int)
    requires
        n <= counts.len(),
    ensures
        weights(counts.push(more), n) == weights(counts, n),
    decreases n,
{
    if n > 0 {
        lemma_weights(counts, more, n - 1);
    }
}

proof fn lemma_emit(
    call: Call,
    pending: Map<Place, PendingBatch>,
    order: Seq<Place>,
    n: int,
    now: u64,
    window: u64,
    room: nat,
) -> (counts: Seq<Option<nat>>)
    requires
        sound(pending),
        order.no_duplicates(),
        0 <= n <= order.len(),
        forall|i: int| 0 <= i < order.len() ==> pending.contains_key(#[trigger] order[i]),
    ensures
        ({
            let e = emit_all(Emission { pending, ready: Seq::empty() }, order, n, now, window, room);
            &&& accounts(call, e.ready, counts, window)
            &&& weights(counts, counts.len() as int) + waiting(e.pending) == waiting(pending)
            &&& sound(e.pending)
            &&& forall|i: int| n <= i < order.len() ==> e.pending.contains_key(#[trigger] order[i])
        }),
    decreases n,
{
    let start = Emission { pending, ready: Seq::empty() };
    if n == 0 {
        Seq::empty()
    } else {
        let counts = lemma_emit(call, pending, order, n - 1, now, window, room);
        let e = emit_all(start, order, n - 1, now, window, room);
        let place = order[n - 1];
        let batch = e.pending[place];
        let after = emit_one(e, place, now, window, room);
        assert forall|i: int| n <= i < order.len() implies after.pending.contains_key(#[trigger] order[i]) by {
            assert(order[i] != order[n - 1]);
        }
        if batch.suppressed_count == 0 || batch.last is None {
            lemma_without(e.pending, place);
            counts
        } else if e.ready.len() >= room {
            lemma_with(e.pending, place, PendingBatch { deadline: (now + window) as u64, ..batch });
            counts
        } else {
            lemma_with(
                e.pending,
                place,
                PendingBatch { deadline: (now + window) as u64, suppressed_count: 0, last: None },
            );
            let count = Some(batch.suppressed_count as nat);
            let more = counts.push(count);
            lemma_weights(counts, count, counts.len() as int);
            let told = summary(batch, window);
            assert(told == summarized(batch.last->0@, batch.suppressed_count as nat, window));
            assert forall|i: int| 0 <= i < after.ready.len() implies stands_for(
                call,
                #[trigger] after.ready[i],
                more[i],
                window,
            ) by {
                if i < e.ready.len() {
                    assert(after.ready[i] == e.ready[i]);
                    assert(more[i] == counts[i]);
                }
            }
            more
        }
    }
}

proof fn lemma_emitted(
    call: Call,
    pending: Map<Place, PendingBatch>,
    e: Emission,
    now: u64,
    window: u64,
    room: nat,
) -> (counts: Seq<Option<nat>>)
    requires
        sound(pending),
        emitted(pending, e, now, window, room),
    ensures
        accounts(call, e.ready, counts, window),
        weights(counts, counts.len() as int) + waiting(e.pending) == waiting(pending),
        sound(e.pending),
{
    let start = Emission { pending, ready: Seq::empty() };
    let order = choose|order: Seq<Place>|
        #[trigger] due_order(pending, now, order) && e == emit_all(
            start,
            order,
            order.len() as int,
            now,
            window,
            room,
        );
    assert forall|i: int| 0 <= i < order.len() implies pending.contains_key(#[trigger] order[i]) by {
        assert(order.contains(order[i]));
    }
    lemma_emit(call, pending, order, order.len() as int, now, window, room)
}

proof fn lemma_pushed(
    e: Emission,
    counts: Seq<Option<nat>>,
    report: NonfatalReport,
    now: u64,
    window: u64,
    room: nat,
) -> (all: Seq<Option<nat>>)
    requires
        sound(e.pending),
        waiting(e.pending) < usize::MAX,
        accounts(Call::Push { now, report, room }, e.ready, counts, window),
    ensures
        ({
            let after = pushed(e, report, now, window, room);
            &&& accounts(Call::Push { now, report, room }, after.ready, all, window)
            &&& weights(all, all.len() as int) + waiting(after.pending) == weights(counts, counts.len() as int)
                + waiting(e.pending) + 1
            &&& sound(after.pending)
        }),
{
    let call = Call::Push { now, report, room };
    let place = site_of(report.report@);
    let after = pushed(e, report, now, window, room);
    let batch = after.pending[place];
    lemma_with(e.pending, place, batch);
    assert(after.pending == e.pending.insert(place, batch)) by {
        assert(after.pending =~= e.pending.insert(place, batch));
    }
    if e.pending.contains_key(place) || e.ready.len() >= room {
        counts
    } else {
        let all = counts.push(None);
        lemma_weights(counts, None, counts.len() as int);
        assert forall|i: int| 0 <= i < after.ready.len() implies stands_for(
            call,
            #[trigger] after.ready[i],
            all[i],
            window,
        ) by {
            if i < e.ready.len() {
                assert(after.ready[i] == e.ready[i]);
                assert(all[i] == counts[i]);
            }
        }
        all
    }
}

/// The batches of the places of an order from the `n`th on.
spec fn left(pending: Map<Place, PendingBatch>, order: Seq<Place>, n: int) -> Map<Place, PendingBatch> {
    pending.remove_keys(order.take(n).to_set())
}

proof fn lemma_flush(pending: Map<Place, PendingBatch>, order: Seq<Place>, n: int, window: u64) -> (counts: Seq<
    Option<nat>,
>)
    requires
        sound(pending),
        full_order(pending, order),
        0 <= n <= order.len(),
    ensures
        accounts(Call::Flush, flush_all(pending, order, n, window), counts, window),
        weights(counts, counts.len() as int) + waiting(left(pending, order, n)) == waiting(pending),
        sound(left(pending, order, n)),
    decreases n,
{
    if n == 0 {
        assert(left(pending, order, 0) =~= pending);
        Seq::empty()
    } else {
        let counts = lemma_flush(pending, order, n - 1, window);
        let place = order[n - 1];
        let batch = pending[place];
        let rest = left(pending, order, n - 1);
        assert(order.contains(place));
        assert(!order.take(n - 1).to_set().contains(place)) by {
            if order.take(n - 1).contains(place) {
                let i = order.take(n - 1).index_of(place);
                assert(order[i] == order[n - 1]);
            }
        }
        assert(rest.contains_key(place) && rest[place] == batch);
        assert(left(pending, order, n) =~= rest.remove(place)) by {
            assert forall|p: Place| order.take(n).to_set().contains(p) == (order.take(n - 1).to_set().contains(p)
                || p == place) by {
                if order.take(n).contains(p) {
                    let i = order.take(n).index_of(p);
                    if i < n - 1 {
                        assert(order.take(n - 1)[i] == p);
                    }
                }
                if order.take(n - 1).contains(p) {
                    let i = order.take(n - 1).index_of(p);
                    assert(order.take(n)[i] == p);
                }
                if p == place {
                    assert(order.take(n)[n - 1] == p);
                }
            }
        }
        lemma_without(rest, place);
        let told = flush_all(pending, order, n - 1, window);
        let now = flush_all(pending, order, n, window);
        if batch.suppressed_count > 0 && batch.last is Some {
            let count = Some(batch.suppressed_count as nat);
            let more = counts.push(count);
            lemma_weights(counts, count, counts.len() as int);
            assert(summary(batch, window) == summarized(
                batch.last->0@,
                batch.suppressed_count as nat,
                window,
            ));
            assert forall|i: int| 0 <= i < now.len() implies stands_for(
                Call::Flush,
                #[trigger] now[i],
                more[i],
                window,
            ) by {
                if i < told.len() {
                    assert(now[i] == told[i]);
                    assert(more[i] == counts[i]);
                }
            }
            more
        } else {
            counts
        }
    }
}

proof fn lemma_called(
    before: Map<Place, PendingBatch>,
    call: Call,
    window: u64,
    after: Map<Place, PendingBatch>,
    told: Seq<NonfatalState>,
) -> (counts: Seq<Option<nat>>)
    requires
        sound(before),
        waiting(before) < usize::MAX || !(call is Push),
        called(before, call, window, after, told),
    ensures
        accounts(call, told, counts, window),
        weights(counts, counts.len() as int) + waiting(after) == waiting(before) + if call is Push {
            1nat
        } else {
            0
        },
        sound(after),
{
    match call {
        Call::Push { now, report, room } => {
            let e = choose|e: Emission|
                #[trigger] emitted(before, e, now, window, room) && pushed(e, report, now, window, room) == (Emission {
                    pending: after,
                    ready: told,
                });
            let counts = lemma_emitted(call, before, e, now, window, room);
            lemma_pushed(e, counts, report, now, window, room)
        },
        Call::EmitDue { now, room } => {
            lemma_emitted(call, before, Emission { pending: after, ready: told }, now, window, room)
        },
        Call::Flush => {
            let order = choose|order: Seq<Place>|
                #[trigger] full_order(before, order) && told == flush_all(
                    before,
                    order,
                    order.len() as int,
                    window,
                );
            let counts = lemma_flush(before, order, order.len() as int, window);
            assert(left(before, order, order.len() as int) =~= Map::<Place, PendingBatch>::empty()) by {
                assert(order.take(order.len() as int) =~= order);
                assert forall|p: Place| before.contains_key(p) implies order.to_set().contains(p) by {
                    assert(order.contains(p));
                }
            }
            counts
        },
    }
}

proof fn lemma_in_all(counts: Seq<Seq<Option<nat>>>, more: Seq<Option<nat>>, n: int)
    requires
        n <= counts.len(),
    ensures
        told_in_all(counts.push(more), n) == told_in_all(counts, n),
    decreases n,
{
    if n > 0 {
        lemma_in_all(counts, more, n - 1);
    }
}

proof fn lemma_history(
    states: Seq<Map<Place, PendingBatch>>,
    calls: Seq<Call>,
    window: u64,
    told: Seq<Seq<NonfatalState>>,
    n: int,
) -> (counts: Seq<Seq<Option<nat>>>)
    requires
        history(states, calls, window, told),
        0 <= n <= calls.len(),
        brought(calls, n) <= usize::MAX,
    ensures
        counts.len() == n,
        forall|i: int| 0 <= i < n ==> accounts(calls[i], told[i], #[trigger] counts[i], window),
        told_in_all(counts, n) + waiting(states[n]) == brought(calls, n),
        sound(states[n]),
    decreases n,
{
    if n == 0 {
        Seq::empty()
    } else {
        let earlier = lemma_history(states, calls, window, told, n - 1);
        assert(called(states[n - 1], calls[n - 1], window, states[n], told[n - 1]));
        let counts = lemma_called(states[n - 1], calls[n - 1], window, states[n], told[n - 1]);
        let all = earlier.push(counts);
        lemma_in_all(earlier, counts, n - 1);
        assert forall|i: int| 0 <= i < n implies accounts(calls[i], told[i], #[trigger] all[i], window) by {
            if i < n - 1 {
                assert(all[i] == earlier[i]);
            }
        }
        all
    }
}

/// No report is lost or counted twice, whatever is asked of a coalescer: the reports that were told as they came, those
/// that the summaries stand for, and those that still wait are as many as were brought.
pub proof fn law_every_report_is_accounted_for(
    states: Seq<Map<Place, PendingBatch>>,
    calls: Seq<Call>,
    window: u64,
    told: Seq<Seq<NonfatalState>>,
)
    requires
        history(states, calls, window, told),
        brought(calls, calls.len() as int) <= usize::MAX,
    ensures
        exists|counts: Seq<Seq<Option<nat>>>|
            {
                &&& counts.len() == calls.len()
                &&& forall|i: int| 0 <= i < calls.len() ==> accounts(calls[i], told[i], #[trigger] counts[i], window)
                &&& #[trigger] told_in_all(counts, calls.len() as int) + waiting(states.last()) == brought(
                    calls,
                    calls.len() as int,
                )
            },
{
    let counts = lemma_history(states, calls, window, told, calls.len() as int);
    assert(told_in_all(counts, calls.len() as int) + waiting(states.last()) == brought(calls, calls.len() as int));
}

/// After a flush nothing waits: everything that was brought was told.
pub proof fn law_a_flush_tells_the_rest(
    states: Seq<Map<Place, PendingBatch>>,
    calls: Seq<Call>,
    window: u64,
    told: Seq<Seq<NonfatalState>>,
)
    requires
        history(states, calls, window, told),
        brought(calls, calls.len() as int) <= usize::MAX,
        calls.len() > 0,
        calls.last() is Flush,
    ensures
        states.last() == Map::<Place, PendingBatch>::empty(),
        exists|counts: Seq<Seq<Option<nat>>>|
            {
                &&& counts.len() == calls.len()
                &&& forall|i: int| 0 <= i < calls.len() ==> accounts(calls[i], told[i], #[trigger] counts[i], window)
                &&& #[trigger] told_in_all(counts, calls.len() as int) == brought(calls, calls.len() as int)
            },
{
    let n = calls.len() as int;
    assert(called(states[n - 1], calls[n - 1], window, states[n], told[n - 1]));
    let counts = lemma_history(states, calls, window, told, n);
    assert(waiting(states.last()) == 0);
    assert(told_in_all(counts, n) == brought(calls, n));
}

proof fn lemma_flushed_len(pending: Map<Place, PendingBatch>, order: Seq<Place>, n: int, window: u64)
    requires
        0 <= n,
    ensures
        flush_all(pending, order, n, window).len() <= n,
    decreases n,
{
    if n > 0 {
        lemma_flushed_len(pending, order, n - 1, window);
    }
}

/// A flush tells at most one thing for each place that waits, and one where nothing waits tells nothing.
pub proof fn law_a_flush_tells_each_place_once(
    before: Map<Place, PendingBatch>,
    after: Map<Place, PendingBatch>,
    window: u64,
    told: Seq<NonfatalState>,
)
    requires
        before.dom().finite(),
        called(before, Call::Flush, window, after, told),
    ensures
        told.len() <= before.dom().len(),
        before == Map::<Place, PendingBatch>::empty() ==> told == Seq::<NonfatalState>::empty(),
{
    let order = choose|order: Seq<Place>|
        #[trigger] full_order(before, order) && told == flush_all(before, order, order.len() as int, window);
    lemma_flushed_len(before, order, order.len() as int, window);
    order.unique_seq_to_set();
    assert(order.to_set() =~= before.dom()) by {
        assert forall|p: Place| order.to_set().contains(p) == before.dom().contains(p) by {
            assert(order.contains(p) == before.contains_key(p));
        }
    }
    if before == Map::<Place, PendingBatch>::empty() {
        assert(before.dom().len() == 0);
        assert(told =~= Seq::<NonfatalState>::empty());
    }
}

} // verus!
