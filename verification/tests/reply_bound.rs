use std::collections::VecDeque;

use vpnhotspotd::protocol::{ErrorKind, IoError};
use vpnhotspotd::reply_bound::{
    block_header_bytes, blocks_for, built_depth, channel_footprint, classify_readiness, disposition,
    linear_footprint, reply_channel_footprint, take_one, with_slot, Disposition, Drained, ErrorSource,
    Readiness, Slotted, Taken, Turned, CHANNEL_STATE_BYTES, VALUES_PER_BLOCK,
};
use vpnhotspotd::reply_turn::{advance, Action, Event, Stage};

const BLOCK_CAP_64: u64 = 32;
const BLOCK_CAP_32: u64 = 16;
const SPARE: u64 = 3;

fn retained(
    depth: u64,
    producers: u64,
    value_bytes: u64,
    align: u64,
    block_cap: u64,
    word: u64,
) -> u64 {
    let blocks = depth.div_ceil(block_cap) + producers.min(depth) + SPARE;
    blocks * (block_cap * value_bytes + 4 * word + align)
}

#[allow(dead_code)]
struct Large([u8; 4096]);

#[allow(dead_code)]
struct Value([u8; 16]);

#[test]
fn the_charge_covers_the_pinned_mpsc_layout_under_contention() {
    /// As large as it is aligned: to 64 octets.
    #[allow(dead_code)]
    struct Aligned(std::arch::x86_64::__m512i);
    struct Empty;

    fn check<T>(label: &str) {
        let value_bytes = std::mem::size_of::<T>() as u64;
        let align = std::mem::align_of::<T>() as u64;
        for depth in [1usize, 2, 16, 17, 32, 33, 500] {
            for producers in [1usize, 2, 32, 500, 4096] {
                let charged = channel_footprint::<T>(depth, producers).expect("chargeable");
                for (target, block_cap, word) in
                    [("64-bit", BLOCK_CAP_64, 8u64), ("32-bit", BLOCK_CAP_32, 4u64)]
                {
                    let retained =
                        retained(depth as u64, producers as u64, value_bytes, align, block_cap, word);
                    assert!(
                        charged >= retained,
                        "{label} depth {depth} producers {producers} on {target}: {charged} charged is short of \
                         the {retained} retained"
                    );
                }
            }
        }
    }

    assert_eq!((std::mem::size_of::<Aligned>(), std::mem::align_of::<Aligned>()), (64, 64));
    check::<Large>("large");
    check::<Aligned>("over-aligned");
    check::<Empty>("zero-sized");
    check::<u8>("byte");
}

#[test]
fn a_depth_one_channel_is_charged_for_the_blocks_it_recycles() {
    let charged = channel_footprint::<Large>(built_depth(0), 1).expect("chargeable");
    let value_bytes = std::mem::size_of::<Large>() as u64;
    let blocks = 1 + 1 + SPARE;
    assert!(
        charged >= blocks * BLOCK_CAP_64 * value_bytes,
        "{charged} charged does not cover {blocks} blocks of {BLOCK_CAP_64} values"
    );
    assert!(
        charged >= 2 * BLOCK_CAP_64 * value_bytes,
        "{charged} charged does not cover the two blocks a cycled depth-one channel holds"
    );
}

#[test]
fn a_channel_charge_covers_more_than_its_payload_slots() {
    for depth in [1usize, 15, 16, 17, 32, 500] {
        let slots = depth as u64 * std::mem::size_of::<Value>() as u64;
        let charged = channel_footprint::<Value>(depth, 1).expect("chargeable");
        assert!(
            charged > slots + CHANNEL_STATE_BYTES,
            "depth {depth}: {charged} does not cover {slots} of values plus the shared state"
        );
        let blocks = blocks_for(depth as u64, 1).expect("fits");
        assert!(blocks >= depth as u64 / VALUES_PER_BLOCK + 2);
        assert!(charged >= blocks * block_header_bytes());
    }
    let mut previous = 0;
    for depth in 1..200usize {
        let charged = channel_footprint::<Value>(depth, 1).expect("chargeable");
        assert!(charged >= previous, "depth {depth} charged less than {depth} - 1");
        previous = charged;
    }
}

#[test]
fn a_reply_channel_charge_covers_the_channel_and_its_payloads() {
    let depth = 32usize;
    let payload = 65_535u64;
    let charged = reply_channel_footprint::<Value>(depth, 1, payload).expect("chargeable");
    let channel = channel_footprint::<Value>(depth, 1).expect("chargeable");
    assert_eq!(charged, channel + (depth as u64 + 1) * payload);
    assert!(charged > depth as u64 * payload, "the channel itself counts");
    assert!(charged > channel);
}

#[test]
fn a_charge_that_would_wrap_fails_closed() {
    assert_eq!(channel_footprint::<Large>(usize::MAX, 1), None);
    assert_eq!(reply_channel_footprint::<Large>(usize::MAX, 1, 1), None);
    assert_eq!(reply_channel_footprint::<u8>(usize::MAX, 1, u64::MAX), None);
    assert_eq!(blocks_for(u64::MAX, 1), None);
}

#[test]
fn a_zero_capacity_request_still_builds_and_charges_a_channel() {
    assert_eq!(built_depth(0), 1, "a zero-capacity channel is not constructible");
    assert_eq!(built_depth(1), 1);
    assert_eq!(built_depth(7), 7);
    let zero = channel_footprint::<u64>(built_depth(0), 1).expect("chargeable");
    assert!(zero > 0);
    assert_eq!(zero, channel_footprint::<u64>(1, 1).expect("chargeable"));
}

#[test]
fn one_turn_disposes_of_exactly_one_message() {
    assert_eq!(disposition(Drained::Remote), Disposition::Send);
    assert_eq!(disposition(Drained::Local), Disposition::Release);
    assert_eq!(disposition(Drained::Neither), Disposition::Release);
    assert_eq!(disposition(Drained::Empty), Disposition::Release);
}

#[test]
fn an_unreportable_backlog_never_holds_a_slot() {
    let backlog = [Drained::Local; 10_000];
    let spent =
        backlog.iter().filter(|drained| disposition(**drained) == Disposition::Send).count();
    assert_eq!(spent, 0);
    for drained in backlog {
        assert!(matches!(disposition(drained), Disposition::Send | Disposition::Release));
    }
}

#[test]
fn a_channel_is_charged_to_the_octet() {
    let word = std::mem::size_of::<usize>() as u64;
    assert_eq!(block_header_bytes(), 12 * word);
    assert_eq!(blocks_for(17, 4), Some(2 + 4 + 3));
    assert_eq!(linear_footprint(32, 8), Some(256));
    assert_eq!(linear_footprint(2, u64::MAX), None);
    let per_block = 32 * 8 + 12 * word + std::mem::align_of::<u64>() as u64;
    assert_eq!(channel_footprint::<u64>(17, 4), Some(9 * per_block + 1024));
}

#[test]
fn a_channel_charge_grows_with_depth_and_senders() {
    let few = channel_footprint::<u64>(16, 1).expect("chargeable");
    assert!(channel_footprint::<u64>(17, 1).expect("chargeable") > few);
    assert!(channel_footprint::<u64>(16, 2).expect("chargeable") > few);
}

struct Scripted {
    backlog: VecDeque<Result<Drained, IoError>>,
    asked: usize,
}

impl ErrorSource for Scripted {
    fn next(&mut self) -> Result<Drained, IoError> {
        self.asked += 1;
        self.backlog.pop_front().unwrap_or(Ok(Drained::Empty))
    }
}

#[test]
fn an_error_queue_is_asked_once_per_turn() {
    let mut source = Scripted {
        backlog: VecDeque::from(vec![Ok(Drained::Remote), Err(IoError::other("gone"))]),
        asked: 0,
    };
    assert!(matches!(take_one(&mut source), Taken::Took { slot: Disposition::Send }));
    assert_eq!(source.asked, 1);
    assert!(matches!(take_one(&mut source), Taken::Failed(e) if e.text() == "gone"));
    assert!(matches!(take_one(&mut source), Taken::Took { slot: Disposition::Release }));
    assert_eq!(source.asked, 3);
}

fn refused(e: &IoError) -> bool {
    e.kind == ErrorKind::ConnectionRefused
}

#[test]
fn readiness_keeps_a_slot_only_while_one_is_needed() {
    let received = classify_readiness::<u8, ()>(Ok(Ok(7)), refused);
    assert!(matches!(with_slot(received, "slot"), Slotted::Received(7, "slot")));
    let stale = classify_readiness::<u8, ()>(Err(()), refused);
    assert!(matches!(with_slot(stale, "slot"), Slotted::Stale));
    let kernel = IoError::new(ErrorKind::ConnectionRefused, "refused".to_owned());
    let errored = classify_readiness::<u8, ()>(Ok(Err(kernel)), refused);
    assert!(matches!(with_slot(errored, "slot"), Slotted::Errored("slot")));
    let failed = classify_readiness::<u8, ()>(Ok(Err(IoError::other("broken"))), refused);
    assert!(matches!(with_slot(failed, "slot"), Slotted::Failed(e) if e.text() == "broken"));
}

#[test]
fn a_turn_goes_from_readiness_to_a_slot_to_one_message() {
    assert!(matches!(advance::<u8>(Stage::Ready, Event::Ready(Ok(()))), Action::Next(Stage::Slot)));
    assert!(matches!(advance::<u8>(Stage::Slot, Event::Slot(true)), Action::Next(Stage::Attempt)));
    assert!(matches!(
        advance(Stage::Attempt, Event::Attempt(Readiness::Received(9u8))),
        Action::Deliver(9)
    ));
    assert!(matches!(
        advance::<u8>(Stage::Attempt, Event::Attempt(Readiness::Errored)),
        Action::Next(Stage::Errors)
    ));
    assert!(matches!(
        advance::<u8>(Stage::Errors, Event::Errors(Ok(Drained::Remote))),
        Action::Next(Stage::Report)
    ));
    assert!(matches!(
        advance::<u8>(Stage::Report, Event::Report(true)),
        Action::End(Turned::Reported)
    ));
}

#[test]
fn a_turn_that_sends_nothing_says_why() {
    assert!(matches!(
        advance::<u8>(Stage::Ready, Event::Cancelled),
        Action::End(Turned::Cancelled)
    ));
    assert!(matches!(advance::<u8>(Stage::Slot, Event::Cancelled), Action::End(Turned::Cancelled)));
    assert!(matches!(advance::<u8>(Stage::Slot, Event::Slot(false)), Action::End(Turned::Closed)));
    assert!(matches!(
        advance::<u8>(Stage::Ready, Event::Ready(Err(IoError::other("fd")))),
        Action::End(Turned::Failed(e)) if e.text() == "fd"
    ));
    for drained in [Drained::Local, Drained::Neither, Drained::Empty] {
        assert!(matches!(
            advance::<u8>(Stage::Errors, Event::Errors(Ok(drained))),
            Action::End(Turned::Released)
        ));
    }
    assert!(matches!(
        advance::<u8>(Stage::Report, Event::Report(false)),
        Action::End(Turned::Released)
    ));
    assert!(matches!(
        advance::<u8>(Stage::Attempt, Event::Attempt(Readiness::Stale)),
        Action::End(Turned::Released)
    ));
}

#[test]
fn a_contended_channel_crosses_block_boundaries_with_every_sender_at_once() {
    let runtime = tokio::runtime::Builder::new_multi_thread()
        .worker_threads(4)
        .build()
        .expect("a runtime");
    runtime.block_on(async {
        let producers = 32usize;
        let per_producer = 64usize;
        let (sender, mut receiver) = tokio::sync::mpsc::channel::<usize>(producers);
        let senders: Vec<_> = (0..producers).map(|_| sender.clone()).collect();
        drop(sender);
        let mut tasks = tokio::task::JoinSet::new();
        for (id, sender) in senders.into_iter().enumerate() {
            tasks.spawn(async move {
                for message in 0..per_producer {
                    sender
                        .send(id * per_producer + message)
                        .await
                        .expect("the receiver is draining");
                }
            });
        }
        let mut seen = 0usize;
        while let Some(_message) = receiver.recv().await {
            seen += 1;
        }
        while let Some(joined) = tasks.join_next().await {
            joined.expect("no producer panicked");
        }
        assert_eq!(
            seen,
            producers * per_producer,
            "every message from every contending sender arrived"
        );
    });
}

#[test]
fn the_payload_term_covers_a_full_queue_plus_the_one_in_hand() {
    let runtime = tokio::runtime::Builder::new_multi_thread()
        .worker_threads(4)
        .build()
        .expect("a runtime");
    runtime.block_on(async {
        const DEPTH: usize = 4;
        const PAYLOAD: usize = 1 << 10;
        let (sender, mut receiver) = tokio::sync::mpsc::channel::<Vec<u8>>(DEPTH);
        for _ in 0..DEPTH {
            sender
                .send(vec![0u8; PAYLOAD])
                .await
                .expect("the queue has room");
        }
        let in_hand = receiver.recv().await.expect("a queued payload");
        sender
            .send(vec![0u8; PAYLOAD])
            .await
            .expect("the permit came back when the message was taken");
        assert_eq!(
            sender.capacity(),
            0,
            "the queue is full again while one payload is still in hand"
        );
        let live = DEPTH + 1;
        assert_eq!(in_hand.len(), PAYLOAD);

        let charged = reply_channel_footprint::<Vec<u8>>(DEPTH, DEPTH, PAYLOAD as u64)
            .expect("chargeable");
        let channel = channel_footprint::<Vec<u8>>(DEPTH, DEPTH).expect("chargeable");
        assert!(
            charged - channel >= live as u64 * PAYLOAD as u64,
            "{} charged for payloads does not cover the {live} really alive",
            charged - channel
        );
        drop(in_hand);
    });
}
