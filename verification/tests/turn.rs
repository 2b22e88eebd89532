use vpnhotspotd::turn::{deadline_turn, Expiry, Pass, Source};

const SOURCES: [Source; 9] = [
    Source::TcpAttention,
    Source::UdpReply,
    Source::EchoReply,
    Source::TcpDnsAsk,
    Source::MappingDeadline,
    Source::EchoDeadline,
    Source::FragmentDeadline,
    Source::TcpDeadline,
    Source::TunIngress,
];

#[test]
fn each_source_takes_one_turn_per_pass() {
    let mut pass = Pass::default();
    assert!(!pass.started(true));
    for (taken, source) in SOURCES.iter().enumerate() {
        assert!(pass.owed(*source), "{source:?}");
        pass.take(*source);
        assert!(pass.started(true), "{source:?}");
        for (index, other) in SOURCES.iter().enumerate() {
            assert_eq!(
                pass.owed(*other),
                index > taken,
                "{source:?} then {other:?}"
            );
        }
    }
    pass.end();
    assert!(!pass.started(true));
    for source in SOURCES {
        assert!(pass.owed(source), "{source:?}");
    }
}

#[test]
fn a_reset_carries_the_cohort_that_ran_before_it_lifts_the_restriction() {
    let mut pass = Pass::default();
    pass.take(Source::UdpReply);
    pass.take(Source::EchoReply);
    pass.end();
    assert!(pass.started(true));
    assert!(pass.owed(Source::UdpReply));
    assert!(pass.owed(Source::EchoReply));
    assert!(!pass.owed(Source::TcpAttention));
    assert!(!pass.owed(Source::TunIngress));
    pass.end();
    assert!(!pass.started(true));
    assert!(pass.owed(Source::TcpAttention));
    assert!(pass.owed(Source::TunIngress));
    pass.take(Source::UdpReply);
    pass.end();
    assert!(pass.owed(Source::UdpReply));
    pass.take(Source::UdpReply);
    assert!(pass.started(true));
    assert!(!pass.owed(Source::UdpReply));
    assert!(pass.owed(Source::TcpAttention));
    assert!(pass.owed(Source::TunIngress));
}

#[test]
fn a_reset_after_attention_ran_carries_nothing() {
    let mut pass = Pass::default();
    pass.take(Source::TcpAttention);
    pass.end();
    assert!(!pass.started(true));
    for source in SOURCES {
        assert!(pass.owed(source), "{source:?}");
    }
    pass.take(Source::TcpAttention);
    pass.take(Source::UdpReply);
    pass.end();
    assert!(!pass.started(true));
    for source in SOURCES {
        assert!(pass.owed(source), "{source:?}");
    }
}

/// Metered output sources in biased order.
const EMITTING: [Source; 4] = [
    Source::TcpAttention,
    Source::UdpReply,
    Source::EchoReply,
    Source::TunIngress,
];

fn gated(source: Source) -> bool {
    matches!(
        source,
        Source::UdpReply | Source::EchoReply | Source::TunIngress
    )
}

/// Models ready producers across one-slot capacity releases.
fn served_across_releases(releases: usize, tcp_ready_while_stalled: bool) -> Vec<Source> {
    let mut pass = Pass::default();
    let mut accepting = true;
    let mut served = Vec::new();
    let mut left = releases;
    loop {
        let ready = |source: Source| {
            accepting || source != Source::TcpAttention || tcp_ready_while_stalled
        };
        let next = EMITTING.into_iter().find(|source| {
            pass.owed(*source) && ready(*source) && (accepting || !gated(*source))
        });
        match next {
            Some(source) => {
                pass.take(source);
                // An accepting turn fills the slot.
                if accepting {
                    served.push(source);
                    accepting = false;
                }
            }
            None if pass.started(accepting) => pass.end(),
            None if !accepting => {
                // Model `output.accepted()`.
                let Some(remaining) = left.checked_sub(1) else {
                    break;
                };
                left = remaining;
                accepting = true;
            }
            // The real owner would block here.
            None => break,
        }
    }
    served
}

#[test]
fn sustained_tcp_output_cannot_starve_queued_replies_across_capacity_releases() {
    for tcp_ready_while_stalled in [true, false] {
        let served = served_across_releases(31, tcp_ready_while_stalled);
        assert_eq!(
            served.len(),
            32,
            "every release placed exactly one datagram (stalled-ready {tcp_ready_while_stalled})"
        );
        // Every group must contain each producer once.
        for (index, group) in served.chunks_exact(EMITTING.len()).enumerate() {
            let mut seen = group.to_vec();
            seen.sort_by_key(|source| *source as u16);
            let mut all = EMITTING.to_vec();
            all.sort_by_key(|source| *source as u16);
            assert_eq!(
                seen, all,
                "release group {index} served {group:?} (stalled-ready {tcp_ready_while_stalled})"
            );
        }
        for source in EMITTING {
            assert_eq!(
                served.iter().filter(|served| **served == source).count(),
                8,
                "{source:?} (stalled-ready {tcp_ready_while_stalled})"
            );
        }
    }
}

#[test]
fn ending_a_pass_while_the_interface_is_full_would_hand_every_release_to_one_source() {
    // Counterexample: resetting while producers are gated starves them.
    let mut pass = Pass::default();
    let mut served = Vec::new();
    let mut accepting = true;
    for _ in 0..10 {
        let next = EMITTING
            .into_iter()
            .find(|source| pass.owed(*source) && (accepting || !gated(*source)));
        match next {
            Some(source) => {
                pass.take(source);
                served.push(source);
                accepting = false;
            }
            None => {
                pass.end();
                accepting = true;
            }
        }
    }
    assert!(
        served.iter().all(|source| *source == Source::TcpAttention),
        "without the rule the first emitting source takes every release: {served:?}"
    );
}

/// Recurring deadlines in biased order.
const RECURRING: [Source; 4] = [
    Source::MappingDeadline,
    Source::EchoDeadline,
    Source::FragmentDeadline,
    Source::TcpDeadline,
];

/// Arms that can emit toward the client.
const TOWARD_CLIENT: [Source; 5] = [
    Source::TcpAttention,
    Source::UdpReply,
    Source::EchoReply,
    Source::TcpDeadline,
    Source::TunIngress,
];

/// First owed output arm in biased order.
fn offered(pass: &Pass) -> Option<Source> {
    SOURCES
        .into_iter()
        .find(|source| TOWARD_CLIENT.contains(source) && pass.owed(*source))
}

#[test]
fn a_stall_serves_successive_deadlines_without_disturbing_the_pass_it_interrupted() {
    // TCP filled the slot; other producers remain owed.
    let mut pass = Pass::default();
    pass.take(Source::TcpAttention);
    assert!(!pass.started(false), "a frozen pass may not end");

    // Successive deadlines run through one continuous stall.
    for round in 0..4 {
        for source in RECURRING {
            assert!(
                deadline_turn(&mut pass, source, false),
                "{source:?} in round {round}"
            );
        }
    }

    // Maintenance leaves the pass unchanged.
    assert!(
        !pass.owed(Source::TcpAttention),
        "TCP output has had its turn"
    );
    for source in SOURCES {
        assert_eq!(
            pass.owed(source),
            source != Source::TcpAttention,
            "{source:?} after the stall"
        );
    }
    assert!(!pass.started(false), "and the pass still may not end");
    assert_eq!(
        EMITTING
            .into_iter()
            .find(|source| pass.owed(*source) && !gated(*source)),
        None
    );

    // Capacity returns to the previously owed producers before TCP.
    assert_eq!(offered(&pass), Some(Source::UdpReply));
    pass.take(Source::UdpReply);
    assert_eq!(offered(&pass), Some(Source::EchoReply));
    pass.take(Source::EchoReply);
    assert_eq!(
        offered(&pass),
        Some(Source::TcpDeadline),
        "and only then does the stack get one"
    );
}

#[test]
fn maintenance_cannot_take_a_slot_the_writer_freed_after_the_turn_read_the_handoff() {
    let mut pass = Pass::default();
    pass.take(Source::TcpAttention);
    // Capacity returns after the turn snapshots a full handoff.
    let accepting = false;
    let freed = true;
    let mut placed = Vec::new();
    for round in 0..2 {
        for source in RECURRING {
            assert!(
                deadline_turn(&mut pass, source, accepting),
                "{source:?} in round {round}"
            );
            if freed && Expiry::from(accepting).delivering() {
                placed.push(source);
            }
        }
    }
    assert!(
        placed.is_empty(),
        "a turn that recorded no turn emitted into the freed slot: {placed:?}"
    );
    // The released slot remains owed to the gated producers.
    for source in SOURCES {
        assert_eq!(
            pass.owed(source),
            source != Source::TcpAttention,
            "{source:?}"
        );
    }
    assert_eq!(offered(&pass), Some(Source::UdpReply));
}

#[test]
fn a_delivering_deadline_turn_is_the_one_that_took_a_turn() {
    let mut pass = Pass::default();
    assert_eq!(Expiry::from(true), Expiry::Delivering);
    assert!(Expiry::from(true).delivering());
    assert_eq!(Expiry::from(false), Expiry::Maintaining);
    assert!(!Expiry::from(false).delivering());
    for source in RECURRING {
        assert!(deadline_turn(&mut pass, source, true), "{source:?}");
        assert!(!pass.owed(source), "{source:?} took its turn");
    }
    for source in RECURRING {
        assert!(deadline_turn(&mut pass, source, false), "{source:?}");
        assert!(!pass.owed(source), "and a maintaining turn records none");
    }
}

#[test]
fn metering_a_deadline_arm_with_a_frozen_pass_would_strand_every_deadline_after_the_first() {
    // Counterexample: metered maintenance strands later deadlines.
    let mut pass = Pass::default();
    pass.take(Source::TcpAttention);
    for source in RECURRING {
        assert!(deadline_turn(&mut pass, source, true), "{source:?}");
    }
    for source in RECURRING {
        assert!(
            !deadline_turn(&mut pass, source, true),
            "a second {source:?} is refused for the rest of the stall"
        );
    }
    assert!(
        !pass.started(false),
        "and no arm can end the pass to re-enable it while the interface is full"
    );
}

#[test]
fn at_most_two_ends_let_every_source_take_a_turn_again() {
    for taken in 0..1usize << SOURCES.len() {
        let mut pass = Pass::default();
        for (index, source) in SOURCES.iter().enumerate() {
            if taken & (1 << index) != 0 {
                pass.take(*source);
            }
        }
        let mut ends = 0;
        while pass.started(true) {
            assert!(SOURCES.iter().any(|source| !pass.owed(*source)), "some source is inactive");
            pass.end();
            ends += 1;
        }
        assert!(ends <= 2, "{taken:b}");
        assert!(SOURCES.iter().all(|source| pass.owed(*source)), "{taken:b}");
    }
}
