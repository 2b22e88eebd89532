use vpnhotspotd::nonfatal::{NonfatalReport, SUPPRESSED_COUNT_DETAIL};
use vpnhotspotd::protocol::DaemonErrorReport;
use vpnhotspotd::ending::{Ending, Event, Stage, Step};
use vpnhotspotd::reporter::{Finalizing, Pushed, Registration, Reporter, Shutdown};

const HANDOFF: usize = 1;

fn report(context: &str, line: u32) -> DaemonErrorReport {
    DaemonErrorReport {
        context: context.to_owned(),
        message: "a mapping's receive failed".to_owned(),
        errno: Some(5),
        kind: "Other".to_owned(),
        file: "src/shizuku/udp.rs".to_owned(),
        line,
        column: 1,
        pid: 321,
        details: Vec::new(),
    }
}

fn suppressed(report: &NonfatalReport) -> Option<&str> {
    report
        .report
        .details
        .iter()
        .find(|detail| detail.key == SUPPRESSED_COUNT_DETAIL)
        .map(|detail| detail.value.as_str())
}

/// Pushes a report, has the writer take what is ready, and says how many that was and whether to wake.
fn push(reporter: &mut Reporter, call_id: Option<u64>, line: u32) -> (Vec<NonfatalReport>, bool) {
    let (pushed, ready, wake) = reporter.push(call_id, report("shizuku.udp_send", line));
    assert!(matches!(pushed, Pushed::Coalesced));
    if !ready.is_empty() {
        for _ in &ready {
            reporter.delivered(true);
        }
        assert!(reporter.emission_over());
    }
    (ready, wake)
}

#[test]
fn a_flood_retains_one_latest_summary_behind_the_occupied_handoff() {
    let mut reporter = Reporter::new(HANDOFF);
    assert_eq!(push(&mut reporter, None, 42).0.len(), 1);
    for _ in 1..10_000 {
        assert!(push(&mut reporter, None, 42).0.is_empty());
    }
    assert!(!reporter.take(), "the one place is taken");
    reporter.freed();
    let last = reporter.close_and_flush();
    assert_eq!(last.len(), 1);
    assert_eq!(suppressed(&last[0]), Some("9998"));
}

#[test]
fn only_the_first_pending_source_wakes_the_drain_task() {
    let mut reporter = Reporter::new(HANDOFF);
    assert!(!push(&mut reporter, None, 42).1);
    assert!(push(&mut reporter, None, 42).1);
    assert!(
        !push(&mut reporter, None, 77).1,
        "the drain task already owns the nonempty pending set"
    );
    assert!(reporter.has_pending());
}

#[test]
fn returning_the_handoff_emits_the_latest_summary_and_finish_joins_the_drainer() {
    let mut reporter = Reporter::new(HANDOFF);
    let (ready, _) = push(&mut reporter, Some(7), 11);
    assert_eq!((ready[0].call_id, suppressed(&ready[0])), (Some(7), None));
    for call_id in [8, 9] {
        assert!(push(&mut reporter, Some(call_id), 11).0.is_empty());
    }
    assert!(reporter.emit().is_empty());
    reporter.freed();
    let summary = reporter.emit();
    assert_eq!(summary.len(), 1);
    assert_eq!(summary[0].call_id, Some(9));
    assert_eq!(suppressed(&summary[0]), Some("1"));
    assert!(!reporter.drained());
    assert!(reporter.emission_over());
    assert!(reporter.drained());
    assert!(reporter.close_and_flush().is_empty());
    assert!(matches!(reporter.push(None, report("shizuku.echo_send", 11)).0, Pushed::Closed(_)));
}

#[test]
fn a_pending_summary_is_flushed_exactly_once_when_the_conversation_finishes() {
    let mut reporter = Reporter::new(HANDOFF);
    assert_eq!(push(&mut reporter, None, 5).0.len(), 1);
    for _ in 0..2 {
        assert!(push(&mut reporter, None, 5).0.is_empty());
    }
    let last = reporter.close_and_flush();
    assert_eq!(last.len(), 1);
    assert_eq!(suppressed(&last[0]), Some("1"));
    assert!(reporter.close_and_flush().is_empty());
}

#[test]
fn nothing_is_reported_after_the_conversation_finished() {
    let mut reporter = Reporter::new(HANDOFF);
    reporter.close();
    let (pushed, ready, wake) = reporter.push(Some(3), report("shizuku.udp_send", 42));
    assert!(matches!(pushed, Pushed::Closed(back) if back == report("shizuku.udp_send", 42)));
    assert!(ready.is_empty() && !wake);
    assert!(reporter.ended(None).is_ok());
}

#[test]
fn a_blocked_handoff_retains_one_latest_summary_per_source() {
    let mut reporter = Reporter::new(2);
    let sites = [42u32, 77u32];
    for line in sites {
        assert_eq!(push(&mut reporter, None, line).0.len(), 1);
    }
    for _ in 0..50u32 {
        for line in sites {
            assert!(push(&mut reporter, None, line).0.is_empty());
        }
    }
    let last = reporter.close_and_flush();
    assert_eq!(last.len(), 2);
    for report in &last {
        assert!(sites.contains(&report.report.line));
        assert_eq!(suppressed(report), Some("49"));
    }
}

/// Runs a reporter's end, with a place whenever one is waited for. `takes` says whether the writer takes a report.
fn finish(
    reporter: &mut Reporter,
    takes: impl Fn(&NonfatalReport) -> bool,
) -> (Vec<NonfatalReport>, Result<(), String>) {
    let mut told = Vec::new();
    let mut shutdown = Shutdown { running: true, outcome: None };
    let mut registration = Registration { current: None, closing: Some(4) };
    let (mut ending, mut step) = Ending::begin(reporter);
    loop {
        let event = match step {
            Step::Cancel => Event::Cancelled,
            Step::Drain => {
                assert!(reporter.drained(), "no emission is under way");
                Event::Drained
            }
            Step::Join => Event::Joined(None),
            Step::Place => {
                assert!(reporter.take(), "the writer has a place");
                Event::Placed
            }
            Step::Tell(report) => {
                let taken = takes(&report);
                told.push(report);
                reporter.freed();
                Event::Told(taken)
            }
            Step::Announce => break,
            Step::Nothing => unreachable!("every event was waited for"),
        };
        assert_eq!((registration.closing, shutdown.outcome.is_some()), (Some(4), false));
        step = ending.advance(reporter, &mut shutdown, &mut registration, 4, event);
    }
    assert_eq!(ending.stage(), Stage::Over);
    assert_eq!(registration.closing, None, "the outcome is stored and the registration given up together");
    (told, shutdown.outcome.expect("the outcome is stored before it is announced"))
}

#[test]
fn freeing_the_one_place_drains_every_waiting_site_in_order() {
    let mut reporter = Reporter::new(1);
    let sites = [42u32, 77u32, 99u32];
    let mut arriving = Vec::new();
    for line in sites {
        for _ in 0..2 {
            let (pushed, ready, _) = reporter.push(None, report("shizuku.udp_send", line));
            assert!(matches!(pushed, Pushed::Coalesced));
            if !ready.is_empty() {
                reporter.delivered(true);
                assert!(reporter.emission_over());
            }
            arriving.extend(ready);
        }
    }
    let first = arriving.remove(0);
    assert!(sites.contains(&first.report.line));
    assert_eq!(suppressed(&first), None);
    assert!(!reporter.take(), "the one place is taken");
    assert!(arriving.is_empty());

    assert!(
        reporter.emit().is_empty(),
        "an occupied handoff keeps every source pending",
    );

    let mut summarised = Vec::new();
    for _ in 0..sites.len() {
        reporter.freed();
        let summary = reporter.emit();
        assert_eq!(summary.len(), 1, "a place coming back releases a waiting summary");
        summarised.push(summary[0].report.line);
        reporter.delivered(true);
        assert!(reporter.emission_over());
        assert!(reporter.emit().is_empty());
    }
    assert_eq!(summarised, sites, "the longest waiting goes first");
    summarised.sort_unstable();
    assert_eq!(
        summarised, sites,
        "every site drains, so the one that won the place cannot starve the others",
    );
    assert!(!reporter.has_pending());
    reporter.freed();
    let (told, outcome) = finish(&mut reporter, |_| true);
    assert!(told.is_empty());
    outcome.expect("the flush must complete");
}

#[test]
fn the_final_flush_waits_for_the_writer_between_summaries() {
    let mut reporter = Reporter::new(1);
    for line in [42u32, 77u32] {
        for _ in 0..2 {
            push(&mut reporter, None, line);
        }
    }
    let mut shutdown = Shutdown { running: true, outcome: None };
    let mut registration = Registration { current: None, closing: Some(4) };
    let (mut ending, step) = Ending::begin(&mut reporter);
    assert!(matches!(step, Step::Cancel));
    let mut advance = |reporter: &mut Reporter, event: Event| {
        let step = ending.advance(reporter, &mut shutdown, &mut registration, 4, event);
        (step, shutdown.outcome.is_some())
    };
    assert!(matches!(advance(&mut reporter, Event::Drained), (Step::Nothing, false)), "nothing is skipped");
    assert!(matches!(advance(&mut reporter, Event::Cancelled), (Step::Drain, false)));
    assert!(matches!(advance(&mut reporter, Event::Placed), (Step::Nothing, false)));
    assert!(matches!(advance(&mut reporter, Event::Drained), (Step::Join, false)));
    assert!(matches!(advance(&mut reporter, Event::Joined(None)), (Step::Place, false)));
    assert!(!reporter.take(), "the flush must wait for the one permit");
    reporter.freed();
    assert!(reporter.take());
    let (step, _) = advance(&mut reporter, Event::Placed);
    assert!(matches!(step, Step::Tell(report) if report.report.line == 42));
    assert!(matches!(advance(&mut reporter, Event::Placed), (Step::Nothing, false)));
    assert!(matches!(advance(&mut reporter, Event::Told(true)), (Step::Place, false)));
    assert!(!reporter.take(), "the flush must wait between summaries");
    reporter.freed();
    assert!(reporter.take());
    let (step, _) = advance(&mut reporter, Event::Placed);
    assert!(matches!(step, Step::Tell(report) if report.report.line == 77));
    assert!(matches!(advance(&mut reporter, Event::Told(true)), (Step::Announce, true)));
    assert!(matches!(advance(&mut reporter, Event::Told(true)), (Step::Nothing, true)));
    assert!(matches!(shutdown.outcome, Some(Ok(()))));
}

#[test]
fn a_writer_that_disconnects_reports_what_it_could_not_take_at_finish() {
    let mut reporter = Reporter::new(1);
    for line in [42u32, 77u32] {
        for _ in 0..2 {
            push(&mut reporter, None, line);
        }
    }
    reporter.freed();
    let (told, outcome) = finish(&mut reporter, |_| false);
    assert_eq!(told.len(), 2);
    let failed = outcome.expect_err("a report the writer could not take has to reach the conversation's result");
    assert!(failed.contains("could not be delivered"));
    assert_eq!(failed, "2 nonfatal reports could not be delivered to the controller");
}

#[test]
fn a_waiting_source_goes_before_a_report_that_comes_later() {
    let mut reporter = Reporter::new(HANDOFF);
    push(&mut reporter, None, 42);
    push(&mut reporter, None, 42);
    reporter.freed();
    let (ready, _) = push(&mut reporter, None, 77);
    assert_eq!(ready.len(), 1);
    assert_eq!(ready[0].report.line, 42);
    assert_eq!(suppressed(&ready[0]), None, "one report stands for no other");
    assert!(reporter.has_pending());
}

#[test]
fn a_report_the_conversation_could_not_carry_is_returned_by_finish() {
    let mut reporter = Reporter::new(HANDOFF);
    assert_eq!(reporter.push(None, report("shizuku.tun_egress", 99)).1.len(), 1);
    reporter.delivered(false);
    assert_eq!(
        reporter.ended(None).unwrap_err(),
        "1 nonfatal reports could not be delivered to the controller"
    );
    assert_eq!(
        reporter.ended(Some("panicked".to_owned())).unwrap_err(),
        "the pending-report drain task failed: panicked"
    );
}

#[test]
fn a_second_installation_is_refused_and_leaves_nothing_running() {
    let mut registration = Registration::new();
    assert!(registration.install(1, false).is_ok());
    assert_eq!(
        registration.install(2, true).unwrap_err().text(),
        "nonfatal reporter already installed"
    );
    assert_eq!(registration.current, Some(1));
}

#[test]
fn a_successor_cannot_install_until_the_predecessor_has_finished() {
    let mut registration = Registration::new();
    registration.install(1, false).unwrap();
    let mut shutdown = Shutdown {
        running: false,
        outcome: None,
    };
    assert!(matches!(shutdown.finalize(&mut registration, 1, true), Finalizing::Run));
    assert!(matches!(shutdown.finalize(&mut registration, 1, true), Finalizing::UnderWay));
    assert!(registration.install(2, true).is_err());
    registration.release(1);
    shutdown.outcome = Some(Ok(()));
    assert!(matches!(shutdown.finalize(&mut registration, 1, true), Finalizing::Over));
    assert!(registration.install(2, false).is_ok());
}

#[test]
fn a_guard_dropped_outside_a_runtime_leaves_the_registry_fail_closed() {
    let mut registration = Registration::new();
    registration.install(1, false).unwrap();
    let mut shutdown = Shutdown {
        running: false,
        outcome: None,
    };
    assert!(matches!(shutdown.finalize(&mut registration, 1, false), Finalizing::Abandon));
    assert_eq!(registration.current, None);
    assert!(registration.install(2, true).is_err());
}
