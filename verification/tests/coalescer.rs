use vpnhotspotd::coalescer::SiteCoalescer;
use vpnhotspotd::nonfatal::{NonfatalReport, SUPPRESSED_COUNT_DETAIL, WINDOW_DETAIL};
use vpnhotspotd::protocol::DaemonErrorReport;

const NOW: u64 = 1_000;

fn report(context: &str, kind: &str, line: u32, column: u32) -> DaemonErrorReport {
    DaemonErrorReport {
        context: context.to_owned(),
        message: "message".to_owned(),
        kind: kind.to_owned(),
        errno: None,
        file: "src/app.rs".to_owned(),
        line,
        column,
        pid: 0,
        details: Vec::new(),
    }
}

fn suppressed(report: &NonfatalReport) -> Option<&str> {
    report
        .report
        .details
        .iter()
        .find(|detail| detail.key == SUPPRESSED_COUNT_DETAIL)
        .map(|detail| detail.value.as_str())
}

const ROOM: usize = usize::MAX;

#[test]
fn one_site_is_one_batch_however_the_report_varies() {
    let mut coalescer = SiteCoalescer::new(1_000_000_000);
    let now = NOW;
    assert_eq!(
        coalescer
            .push(now, None, report("a", "One", 7, 3), ROOM)
            .len(),
        1
    );
    // Same site, different context, kind and call id - still the same batch.
    assert!(coalescer
        .push(now, Some(9), report("b", "Two", 7, 3), ROOM)
        .is_empty());
    assert!(coalescer
        .push(now, None, report("c", "Three", 7, 3), ROOM)
        .is_empty());
    let due = coalescer.emit_due(now + 2_000_000_000, ROOM);
    assert_eq!(due.len(), 1, "one site, one summary");
    assert_eq!(suppressed(&due[0]), Some("2"));

    // A different column is a different call site, so it is a batch of its own.
    assert_eq!(
        coalescer
            .push(now, None, report("a", "One", 7, 40), ROOM)
            .len(),
        1
    );
}

#[test]
fn a_blocked_batch_is_retained_and_keeps_counting() {
    let window = 1_000_000_000;
    let mut coalescer = SiteCoalescer::new(window);
    let mut now = NOW;
    // No room at all, so even the first report opens a batch instead of going out.
    assert!(coalescer
        .push(now, None, report("a", "One", 7, 3), 0)
        .is_empty());
    for _ in 0..5u32 {
        now += window * 2;
        for _ in 0..10u32 {
            assert!(coalescer
                .push(now, None, report("a", "One", 7, 3), 0)
                .is_empty());
        }
        // Due every time, and every time retained rather than dropped.
        assert!(coalescer.emit_due(now, 0).is_empty());
    }
    // One summary, carrying every occurrence: 1 opening + 50 coalesced.
    let due = coalescer.emit_due(now + window * 2, ROOM);
    assert_eq!(due.len(), 1);
    assert_eq!(suppressed(&due[0]), Some("51"));
}

#[test]
fn flush_yields_what_a_blocked_window_kept() {
    let mut coalescer = SiteCoalescer::new(1_000_000_000);
    let now = NOW;
    assert!(coalescer
        .push(now, None, report("a", "One", 7, 3), 0)
        .is_empty());
    assert!(coalescer
        .push(now, None, report("a", "One", 9, 3), 0)
        .is_empty());
    assert_eq!(coalescer.flush().len(), 2);
    assert!(coalescer.next_deadline().is_none());
}

#[test]
fn a_summary_tells_how_many_it_stands_for_and_for_how_long() {
    let mut coalescer = SiteCoalescer::new(1_500_000_000);
    assert_eq!(coalescer.push(NOW, Some(4), report("a", "One", 7, 3), 1).len(), 1);
    assert!(coalescer.push(NOW, Some(5), report("b", "Two", 7, 3), 1).is_empty());
    assert_eq!(coalescer.next_deadline(), Some(NOW + 1_500_000_000));
    assert!(coalescer.emit_due(NOW + 1_499_999_999, 1).is_empty());
    let due = coalescer.emit_due(NOW + 1_500_000_000, 1);
    assert_eq!(due.len(), 1);
    assert_eq!(due[0].call_id, Some(5));
    assert_eq!(due[0].report.context, "b");
    let details: Vec<(&str, &str)> = due[0]
        .report
        .details
        .iter()
        .map(|detail| (detail.key.as_str(), detail.value.as_str()))
        .collect();
    assert_eq!(details, vec![(SUPPRESSED_COUNT_DETAIL, "1"), (WINDOW_DETAIL, "1500")]);
}

#[test]
fn no_more_is_ready_than_there_is_room_for() {
    let mut coalescer = SiteCoalescer::new(1_000_000_000);
    for line in 1..=3 {
        assert!(coalescer.push(NOW, None, report("a", "One", line, 3), 0).is_empty());
    }
    let due = NOW + 1_000_000_000;
    assert_eq!(coalescer.emit_due(due, 2).len(), 2);
    assert!(coalescer.emit_due(due, 2).is_empty(), "the one left over waits for another window");
    assert_eq!(coalescer.emit_due(due + 1_000_000_000, 2).len(), 1);
    assert_eq!(coalescer.next_deadline(), Some(due + 2_000_000_000));
    assert!(coalescer.emit_due(due + 2_000_000_000, 2).is_empty());
    assert_eq!(coalescer.next_deadline(), None);
}

#[test]
fn what_is_told_adds_up_to_what_was_pushed() {
    let window = 1_000_000_000;
    let mut coalescer = SiteCoalescer::new(window);
    let mut told = Vec::new();
    for step in 0..40u64 {
        let room = (step % 3) as usize;
        let now = NOW + step * window / 4;
        told.extend(coalescer.push(now, None, report("a", "One", 7, 3), room));
        told.extend(coalescer.push(now, None, report("b", "Two", 9, 3), 0));
        if step % 5 == 0 {
            told.extend(coalescer.emit_due(now, 1));
        }
    }
    told.extend(coalescer.flush());
    assert!(coalescer.flush().is_empty());
    for line in [7, 9] {
        let counted: u64 = told
            .iter()
            .filter(|one| one.report.line == line)
            .map(|one| suppressed(one).map_or(1, |count| count.parse().unwrap()))
            .sum();
        assert_eq!(counted, 40, "line {line}");
    }
}
