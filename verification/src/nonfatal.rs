//! Failures that end no call, and how those of one place in the code are put together.
use vstd::prelude::*;

use crate::protocol::{detail_views, DaemonErrorReport, ErrorDetail, ReportState};
use crate::rows::RowKey;
use crate::text::{decimal, decimal_text};

verus! {

/// The detail that says how many reports were left out.
pub const SUPPRESSED_COUNT_DETAIL: &'static str = "coalesced.suppressed_count";

/// The detail that says for how long reports of one place are put together.
pub const WINDOW_DETAIL: &'static str = "coalesced.window_ms";

/// A report of a failure that ends no call, and the call it happened in.
#[derive(Debug)]
pub struct NonfatalReport {
    pub call_id: Option<u64>,
    pub report: DaemonErrorReport,
}

/// What such a report says.
#[verifier::ext_equal]
pub struct NonfatalState {
    pub call_id: Option<u64>,
    pub report: ReportState,
}

impl View for NonfatalReport {
    type V = NonfatalState;

    open spec fn view(&self) -> NonfatalState {
        NonfatalState { call_id: self.call_id, report: self.report@ }
    }
}

/// What a list of reports says.
pub open spec fn nonfatal_views(reports: Seq<NonfatalReport>) -> Seq<NonfatalState> {
    Seq::new(reports.len(), |i: int| reports[i]@)
}

/// A report with the number of reports it stands for, and the milliseconds they were put together for.
pub open spec fn coalesced(report: ReportState, suppressed_count: nat, window: nat) -> ReportState {
    ReportState {
        details: report.details.push((SUPPRESSED_COUNT_DETAIL@, decimal(suppressed_count))).push(
            (WINDOW_DETAIL@, decimal(window / 1_000_000)),
        ),
        ..report
    }
}

/// Says in a report how many reports it stands for, and for how long they were put together.
pub fn add_coalesced_details(report: &mut DaemonErrorReport, suppressed_count: usize, window: u64)
    ensures
        final(report)@ == coalesced(old(report)@, suppressed_count as nat, window as nat),
{
    let count = ErrorDetail {
        key: SUPPRESSED_COUNT_DETAIL.to_owned(),
        value: decimal_text(suppressed_count as u64),
    };
    report.details.push(count);
    let held = ErrorDetail { key: WINDOW_DETAIL.to_owned(), value: decimal_text(window / 1_000_000) };
    report.details.push(held);
    assert(detail_views(report.details@) =~= coalesced(
        old(report)@,
        suppressed_count as nat,
        window as nat,
    ).details);
}

/// A place in the code.
#[derive(Debug)]
pub struct SiteKey {
    pub file: String,
    pub line: u32,
    pub column: u32,
}

impl RowKey for SiteKey {
    type Model = (Seq<char>, u32, u32);

    open spec fn model(&self) -> (Seq<char>, u32, u32) {
        (self.file@, self.line, self.column)
    }

    fn same(&self, other: &Self) -> (r: bool) {
        self.file == other.file && self.line == other.line && self.column == other.column
    }
}

/// The place that a report names.
pub open spec fn site_of(report: ReportState) -> (Seq<char>, u32, u32) {
    (report.file, report.line, report.column)
}

impl SiteKey {
    /// The place that a report names.
    pub fn of(report: &DaemonErrorReport) -> (r: SiteKey)
        ensures
            r.model() == site_of(report@),
    {
        SiteKey { file: report.file.clone(), line: report.line, column: report.column }
    }

    /// The same place once more.
    pub fn copied(&self) -> (r: SiteKey)
        ensures
            r.model() == self.model(),
    {
        SiteKey { file: self.file.clone(), line: self.line, column: self.column }
    }
}

/// The reports of one place that wait for room: how many, and the last of them.
#[derive(Debug)]
pub struct Waiting {
    pub count: usize,
    pub last: NonfatalReport,
}

/// What waits of one place.
#[verifier::ext_equal]
pub struct WaitingState {
    pub count: usize,
    pub last: NonfatalState,
}

impl View for Waiting {
    type V = WaitingState;

    open spec fn view(&self) -> WaitingState {
        WaitingState { count: self.count, last: self.last@ }
    }
}

/// What a list of waiting reports says.
pub open spec fn waiting_views(waiting: Seq<Waiting>) -> Seq<WaitingState> {
    Seq::new(waiting.len(), |i: int| waiting[i]@)
}

/// What waits of one place is told as: its last report, and how many others that stands for where there are any.
pub open spec fn told(waiting: WaitingState) -> NonfatalState {
    if waiting.count <= 1 {
        waiting.last
    } else {
        let report = waiting.last.report;
        NonfatalState {
            call_id: waiting.last.call_id,
            report: ReportState {
                details: report.details.push((SUPPRESSED_COUNT_DETAIL@, decimal((waiting.count - 1) as nat))),
                ..report
            },
        }
    }
}

impl Waiting {
    fn told(self) -> (r: NonfatalReport)
        ensures
            r@ == told(self@),
    {
        let Waiting { count, last } = self;
        let NonfatalReport { call_id, report } = last;
        if count <= 1 {
            return NonfatalReport { call_id, report };
        }
        let mut report = report;
        let ghost before = report@;
        let detail = ErrorDetail {
            key: SUPPRESSED_COUNT_DETAIL.to_owned(),
            value: decimal_text((count - 1) as u64),
        };
        report.details.push(detail);
        assert(detail_views(report.details@) =~= before.details.push(
            (SUPPRESSED_COUNT_DETAIL@, decimal((count - 1) as nat)),
        ));
        NonfatalReport { call_id, report }
    }
}

/// How many of those that wait there is room for.
pub open spec fn fitting(waiting: Seq<WaitingState>, room: nat) -> nat {
    if waiting.len() <= room { waiting.len() } else { room }
}

/// What is told of the first `n` that wait.
pub open spec fn tellings(waiting: Seq<WaitingState>, n: nat) -> Seq<NonfatalState> {
    Seq::new(n, |i: int| told(waiting[i]))
}

/// Where a place waits, from the `i`th on.
pub open spec fn waits_at(waiting: Seq<WaitingState>, place: (Seq<char>, u32, u32), i: int) -> Option<int>
    decreases waiting.len() - i,
{
    if i < 0 || i >= waiting.len() {
        None
    } else if site_of(waiting[i].last.report) == place {
        Some(i)
    } else {
        waits_at(waiting, place, i + 1)
    }
}

/// What waits after one more report has to: it is the last of its place, which waits behind the others where it
/// did not wait yet.
pub open spec fn joined(waiting: Seq<WaitingState>, report: NonfatalState) -> Seq<WaitingState> {
    match waits_at(waiting, site_of(report.report), 0) {
        Some(k) => waiting.update(
            k,
            WaitingState {
                count: if waiting[k].count < usize::MAX { (waiting[k].count + 1) as usize } else { usize::MAX },
                last: report,
            },
        ),
        None => waiting.push(WaitingState { count: 1, last: report }),
    }
}

/// What waits and what is told after a report: those that wait come first, and the report itself is told where
/// there is room left.
pub open spec fn offered(waiting: Seq<WaitingState>, report: NonfatalState, room: nat) -> (
    Seq<WaitingState>,
    Seq<NonfatalState>,
) {
    let n = fitting(waiting, room);
    let rest = waiting.skip(n as int);
    let ready = tellings(waiting, n);
    if n < room {
        (rest, ready.push(report))
    } else {
        (joined(rest, report), ready)
    }
}

/// Keeps the last report of every place in the code that found no room.
#[derive(Debug)]
pub struct SourceCoalescer {
    waiting: Vec<Waiting>,
}

impl View for SourceCoalescer {
    type V = Seq<WaitingState>;

    closed spec fn view(&self) -> Seq<WaitingState> {
        waiting_views(self.waiting@)
    }
}

impl SourceCoalescer {
    /// Nothing waits.
    pub fn new() -> (r: Self)
        ensures
            r@ == Seq::<WaitingState>::empty(),
    {
        let r = SourceCoalescer { waiting: Vec::new() };
        assert(r@ =~= Seq::<WaitingState>::empty());
        r
    }

    /// Whether anything waits.
    pub fn has_pending(&self) -> (r: bool)
        ensures
            r == (self@.len() > 0),
    {
        self.waiting.len() > 0
    }

    /// Tells as many of those that wait as there is room for, the longest waiting first.
    pub fn emit(&mut self, room: usize) -> (r: Vec<NonfatalReport>)
        ensures
            final(self)@ == old(self)@.skip(fitting(old(self)@, room as nat) as int),
            nonfatal_views(r@) == tellings(old(self)@, fitting(old(self)@, room as nat)),
    {
        let mut ready: Vec<NonfatalReport> = Vec::new();
        let ghost all = self@;
        assert(all.skip(0) =~= all);
        while ready.len() < room && self.waiting.len() > 0
            invariant
                ready@.len() <= room,
                ready@.len() <= all.len(),
                self@ == all.skip(ready@.len() as int),
                nonfatal_views(ready@) == tellings(all, ready@.len()),
            decreases self.waiting@.len(),
        {
            let ghost before = self.waiting@;
            let ghost here = self@;
            let ghost told_before = nonfatal_views(ready@);
            let ghost n = ready@.len();
            assert(here.len() == before.len());
            let first = self.waiting.remove(0);
            proof {
                assert(first@ == here[0]);
                assert forall|i: int| 0 <= i < self@.len() implies self@[i] == all.skip(n as int + 1)[i] by {
                    assert(self.waiting@[i] == before[i + 1]);
                    assert(here[i + 1] == before[i + 1]@);
                }
                assert(self@ =~= all.skip(n as int + 1));
            }
            let report = first.told();
            ready.push(report);
            proof {
                assert forall|i: int| 0 <= i < n + 1 implies nonfatal_views(ready@)[i] == tellings(
                    all,
                    n + 1,
                )[i] by {
                    if i < n {
                        assert(nonfatal_views(ready@)[i] == told_before[i]);
                    }
                }
                assert(nonfatal_views(ready@) =~= tellings(all, n + 1));
            }
        }
        assert(self@.len() == all.len() - ready@.len());
        ready
    }

    /// Takes a report. The ready ones come back, and whether something waits now where nothing did.
    pub fn push(&mut self, call_id: Option<u64>, report: DaemonErrorReport, room: usize) -> (r: (
        Vec<NonfatalReport>,
        bool,
    ))
        ensures
            (final(self)@, nonfatal_views(r.0@)) == offered(
                old(self)@,
                NonfatalState { call_id, report: report@ },
                room as nat,
            ),
            r.1 == (old(self)@.len() == 0 && final(self)@.len() > 0),
    {
        let empty = !self.has_pending();
        let ghost all = self@;
        let mut ready = self.emit(room);
        let ghost n = fitting(all, room as nat);
        let report = NonfatalReport { call_id, report };
        assert(nonfatal_views(ready@).len() == n);
        if ready.len() < room {
            let ghost told_before = nonfatal_views(ready@);
            ready.push(report);
            assert(nonfatal_views(ready@) =~= told_before.push(report@));
            return (ready, false);
        }
        self.join(report);
        (ready, empty)
    }

    fn join(&mut self, report: NonfatalReport)
        ensures
            final(self)@ == joined(old(self)@, report@),
            final(self)@.len() > 0,
    {
        let place = SiteKey::of(&report.report);
        let ghost all = self@;
        let mut i: usize = 0;
        while i < self.waiting.len()
            invariant
                i <= self.waiting@.len(),
                self@ == all,
                all == old(self)@,
                place.model() == site_of(report@.report),
                waits_at(all, place.model(), 0) == waits_at(all, place.model(), i as int),
            decreases self.waiting@.len() - i,
        {
            assert(self.waiting@[i as int]@ == all[i as int]);
            if SiteKey::of(&self.waiting[i].last.report).same(&place) {
                let count: usize = self.waiting[i].count.saturating_add(1);
                assert(waits_at(all, place.model(), i as int) == Some(i as int));
                self.waiting.set(i, Waiting { count, last: report });
                assert(self@ =~= all.update(i as int, WaitingState { count, last: report@ }));
                return;
            }
            i += 1;
        }
        assert(self@.len() == self.waiting@.len());
        self.waiting.push(Waiting { count: 1, last: report });
        assert(self@ =~= all.push(WaitingState { count: 1, last: report@ }));
    }

    /// Tells all that waits.
    pub fn flush(&mut self) -> (r: Vec<NonfatalReport>)
        ensures
            final(self)@ == Seq::<WaitingState>::empty(),
            nonfatal_views(r@) == tellings(old(self)@, old(self)@.len()),
    {
        let ready = self.emit(self.waiting.len());
        assert(self@ =~= Seq::<WaitingState>::empty());
        ready
    }
}

/// How many reports wait.
pub open spec fn reports_waiting(waiting: Seq<WaitingState>) -> nat
    decreases waiting.len(),
{
    if waiting.len() == 0 {
        0
    } else {
        reports_waiting(waiting.drop_last()) + waiting.last().count as nat
    }
}

proof fn lemma_reports_split(waiting: Seq<WaitingState>, n: int)
    requires
        0 <= n <= waiting.len(),
    ensures
        reports_waiting(waiting) == reports_waiting(waiting.take(n)) + reports_waiting(waiting.skip(n)),
    decreases waiting.len(),
{
    if n == waiting.len() {
        assert(waiting.take(n) =~= waiting);
        assert(waiting.skip(n).len() == 0);
    } else {
        lemma_reports_split(waiting.drop_last(), n);
        assert(waiting.drop_last().take(n) =~= waiting.take(n));
        assert(waiting.skip(n).drop_last() =~= waiting.drop_last().skip(n));
        assert(waiting.skip(n).last() == waiting.last());
    }
}

proof fn lemma_reports_update(waiting: Seq<WaitingState>, k: int, w: WaitingState)
    requires
        0 <= k < waiting.len(),
    ensures
        reports_waiting(waiting.update(k, w)) == reports_waiting(waiting) - waiting[k].count + w.count,
    decreases waiting.len(),
{
    let updated = waiting.update(k, w);
    if k == waiting.len() - 1 {
        assert(updated.drop_last() =~= waiting.drop_last());
    } else {
        lemma_reports_update(waiting.drop_last(), k, w);
        assert(updated.drop_last() =~= waiting.drop_last().update(k, w));
    }
}

proof fn lemma_waits_at(waiting: Seq<WaitingState>, place: (Seq<char>, u32, u32), i: int)
    requires
        0 <= i <= waiting.len(),
    ensures
        match waits_at(waiting, place, i) {
            Some(k) => i <= k < waiting.len() && site_of(waiting[k].last.report) == place,
            None => forall|k: int| i <= k < waiting.len() ==> site_of((#[trigger] waiting[k]).last.report) != place,
        },
    decreases waiting.len() - i,
{
    if i < waiting.len() && site_of(waiting[i].last.report) != place {
        lemma_waits_at(waiting, place, i + 1);
    }
}

/// No report is lost: after one more each is told, stands behind one that is told, or waits.
pub proof fn law_reports_are_told_or_wait(waiting: Seq<WaitingState>, report: NonfatalState, room: nat)
    requires
        forall|i: int| 0 <= i < waiting.len() ==> (#[trigger] waiting[i]).count < usize::MAX,
    ensures
        ({
            let (after, ready) = offered(waiting, report, room);
            let n = fitting(waiting, room);
            reports_waiting(waiting) + 1 == reports_waiting(after) + reports_waiting(waiting.take(n as int)) + (
            ready.len() - n)
        }),
{
    let n = fitting(waiting, room);
    let rest = waiting.skip(n as int);
    lemma_reports_split(waiting, n as int);
    if n == room {
        lemma_waits_at(rest, site_of(report.report), 0);
        match waits_at(rest, site_of(report.report), 0) {
            Some(k) => {
                assert(rest[k] == waiting[n + k]);
                lemma_reports_update(
                    rest,
                    k,
                    WaitingState { count: (rest[k].count + 1) as usize, last: report },
                );
            },
            None => {
                let w = WaitingState { count: 1, last: report };
                assert(rest.push(w).drop_last() =~= rest);
            },
        }
    }
}

/// Whether every place waits once.
pub open spec fn places_differ(waiting: Seq<WaitingState>) -> bool {
    forall|i: int, j: int|
        0 <= i < j < waiting.len() ==> site_of((#[trigger] waiting[i]).last.report) != site_of(
            (#[trigger] waiting[j]).last.report,
        )
}

/// A place waits once however often it reports, so what waits is bounded by the places that the code has; and no
/// more is told than there is room for.
pub proof fn law_a_place_waits_once(waiting: Seq<WaitingState>, report: NonfatalState, room: nat)
    requires
        places_differ(waiting),
    ensures
        places_differ(offered(waiting, report, room).0),
        offered(waiting, report, room).1.len() <= room,
{
    let rest = waiting.skip(fitting(waiting, room) as int);
    lemma_waits_at(rest, site_of(report.report), 0);
    assert(places_differ(rest));
}

/// A report that stands for others says behind its own details how many were held back and for how many milliseconds.
/// Everything else of it stays.
pub proof fn law_a_summary_says_how_many_it_stands_for(report: ReportState, suppressed_count: nat, window: nat)
    ensures
        ({
            let after = coalesced(report, suppressed_count, window);
            let n = report.details.len() as int;
            &&& after.details.len() == n + 2
            &&& after.details.subrange(0, n) == report.details
            &&& after.details[n] == ("coalesced.suppressed_count"@, decimal(suppressed_count))
            &&& after.details[n + 1] == ("coalesced.window_ms"@, decimal(window / 1_000_000))
            &&& after.context == report.context
            &&& after.message == report.message
            &&& after.errno == report.errno
            &&& after.kind == report.kind
            &&& after.file == report.file
            &&& after.line == report.line
            &&& after.column == report.column
            &&& after.pid == report.pid
        }),
{
    let after = coalesced(report, suppressed_count, window);
    assert(after.details.subrange(0, report.details.len() as int) =~= report.details);
}

/// One report that waited is told as it came. Where several of a place did the last is told, with how many others there
/// were.
pub proof fn law_the_last_of_several_is_told(waiting: WaitingState)
    ensures
        told(waiting).call_id == waiting.last.call_id,
        waiting.count <= 1 ==> told(waiting) == waiting.last,
        waiting.count > 1 ==> {
            let n = waiting.last.report.details.len() as int;
            let details = told(waiting).report.details;
            &&& details.len() == n + 1
            &&& details[n] == ("coalesced.suppressed_count"@, decimal((waiting.count - 1) as nat))
            &&& details.subrange(0, n) == waiting.last.report.details
            &&& told(waiting).report.message == waiting.last.report.message
            &&& told(waiting).report.context == waiting.last.report.context
        },
{
    let n = waiting.last.report.details.len() as int;
    if waiting.count > 1 {
        assert(told(waiting).report.details.subrange(0, n) =~= waiting.last.report.details);
    }
}

/// A report that has to wait joins the one that waits from its place, as the last of them, or waits behind all others
/// where none does. Every other place waits as it did.
pub proof fn law_reports_of_a_place_wait_together(waiting: Seq<WaitingState>, report: NonfatalState, k: int)
    requires
        0 <= k <= waiting.len(),
        forall|j: int|
            0 <= j < k ==> {
                let other = (#[trigger] waiting[j]).last.report;
                other.file != report.report.file || other.line != report.report.line || other.column
                    != report.report.column
            },
        k < waiting.len() ==> {
            let other = waiting[k].last.report;
            other.file == report.report.file && other.line == report.report.line && other.column
                == report.report.column
        },
    ensures
        ({
            let after = joined(waiting, report);
            &&& k < waiting.len() ==> {
                &&& after.len() == waiting.len()
                &&& after[k].last == report
                &&& waiting[k].count < usize::MAX ==> after[k].count == waiting[k].count + 1
                &&& forall|j: int| 0 <= j < waiting.len() && j != k ==> #[trigger] after[j] == waiting[j]
            }
            &&& k == waiting.len() ==> {
                &&& after.len() == waiting.len() + 1
                &&& after[k].last == report
                &&& after[k].count == 1
                &&& after.subrange(0, k) == waiting
            }
        }),
{
    lemma_waits_from(waiting, site_of(report.report), 0, k);
    if k == waiting.len() {
        assert(joined(waiting, report).subrange(0, k) =~= waiting);
    }
}

proof fn lemma_waits_from(waiting: Seq<WaitingState>, place: (Seq<char>, u32, u32), a: int, k: int)
    requires
        0 <= a <= k <= waiting.len(),
        forall|j: int| 0 <= j < k ==> site_of((#[trigger] waiting[j]).last.report) != place,
    ensures
        waits_at(waiting, place, a) == waits_at(waiting, place, k),
    decreases k - a,
{
    if a < k {
        assert(site_of(waiting[a].last.report) != place);
        lemma_waits_from(waiting, place, a + 1, k);
    }
}

/// Those that wait go first, in the order in which they came, as many as there is room for. A report goes at once
/// exactly where there is room left behind all of them, and waits otherwise.
pub proof fn law_those_that_wait_go_first(waiting: Seq<WaitingState>, report: NonfatalState, room: nat, i: int)
    ensures
        ({
            let (rest, ready) = offered(waiting, report, room);
            &&& waiting.len() < room ==> {
                &&& ready.len() == waiting.len() + 1
                &&& ready.last() == report
                &&& rest.len() == 0
            }
            &&& waiting.len() >= room ==> {
                &&& ready.len() == room
                &&& rest == joined(waiting.subrange(room as int, waiting.len() as int), report)
            }
            &&& 0 <= i < waiting.len() && i < room ==> ready[i] == told(waiting[i])
        }),
{
    let n = fitting(waiting, room);
    assert(waiting.skip(n as int) =~= waiting.subrange(n as int, waiting.len() as int));
}

/// A report's place is the file, the line and the column that it names.
pub proof fn law_a_place_is_file_line_and_column(a: ReportState, b: ReportState)
    ensures
        site_of(a) == site_of(b) <==> a.file == b.file && a.line == b.line && a.column == b.column,
{
}

/// Reports that end nothing are seen as they are, each in its place, with the call that they are of.
pub proof fn law_nonfatal_reports_are_seen_in_order(reports: Seq<NonfatalReport>, waiting: Seq<Waiting>, i: int)
    ensures
        nonfatal_views(reports).len() == reports.len(),
        0 <= i < reports.len() ==> nonfatal_views(reports)[i].call_id == reports[i].call_id,
        0 <= i < reports.len() ==> nonfatal_views(reports)[i].report == reports[i].report@,
        waiting_views(waiting).len() == waiting.len(),
        0 <= i < waiting.len() ==> waiting_views(waiting)[i].count == waiting[i].count,
        0 <= i < waiting.len() ==> waiting_views(waiting)[i].last.report == waiting[i].last.report@,
{
}

} // verus!
