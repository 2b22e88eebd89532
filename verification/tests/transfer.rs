use std::sync::atomic::{AtomicUsize, Ordering};
use std::sync::Arc;
use std::task::{Context, Poll, Wake, Waker};

use tokio::sync::mpsc;
use tokio_util::sync::PollSender;
use vpnhotspotd::ended::Ended;
use vpnhotspotd::fair::{FairQueue, FlowId, Progress};
use vpnhotspotd::protocol::IoError;
use vpnhotspotd::room::{Reserving, Sending, Unsent};
use vpnhotspotd::tcp_engine::Handle;
use vpnhotspotd::transfer::{asking, dispose, poll_flows, Chunk, Disposition, Polling, Ready, Refilled, Transfer};

/// A waker that only counts, so a test can say whether this queue woke the owner.
#[derive(Default)]
struct Counting(AtomicUsize);

impl Wake for Counting {
    fn wake(self: Arc<Self>) {
        self.wake_by_ref();
    }

    fn wake_by_ref(self: &Arc<Self>) {
        self.0.fetch_add(1, Ordering::Relaxed);
    }
}

fn counting() -> (Arc<Counting>, Waker) {
    let counter = Arc::new(Counting::default());
    let waker = Waker::from(Arc::clone(&counter));
    (counter, waker)
}

/// The ends of one flow's two queues.
struct Ends {
    reader: mpsc::Sender<Chunk>,
    incoming: mpsc::Receiver<Chunk>,
    upstream: Option<PollSender<Vec<u8>>>,
    task: mpsc::Receiver<Vec<u8>>,
}

/// Flows, wired by channels to their tasks.
struct Wired {
    flows: Vec<Polling>,
    ends: Vec<Ends>,
    fair: FairQueue,
}

fn id(handle: u64, worker: u64) -> FlowId {
    FlowId::new(Handle(handle), worker)
}

fn wired(ids: &[FlowId]) -> Wired {
    let mut wired = Wired {
        flows: Vec::new(),
        ends: Vec::new(),
        fair: FairQueue::with_capacity(4),
    };
    for id in ids {
        let (reader, incoming) = mpsc::channel(8);
        let (upstream, task) = mpsc::channel(1);
        assert!(wired.fair.register(*id), "the queue was prepared for it");
        wired.flows.push(Polling {
            id: *id,
            transfer: Transfer::new(),
            receiving: false,
        });
        wired.ends.push(Ends {
            reader,
            incoming,
            upstream: Some(PollSender::new(upstream)),
            task,
        });
    }
    wired
}

impl Wired {
    fn scan(&mut self, cx: &mut Context<'_>) -> Ready {
        let mut at = 0;
        while let Some(asking) = asking(&self.flows, &self.fair, at) {
            let (flow, ends) = (&mut self.flows[at], &mut self.ends[at]);
            if asking.place {
                let upstream = ends.upstream.as_mut().expect("a flow that sends has a queue");
                flow.transfer.reserve(match upstream.poll_reserve(cx) {
                    Poll::Ready(Ok(())) => Reserving::Granted,
                    Poll::Ready(Err(_)) => Reserving::Closed,
                    Poll::Pending => Reserving::Pending,
                });
            }
            if asking.chunk {
                if let Poll::Ready(Some(chunk)) = ends.incoming.poll_recv(cx) {
                    flow.transfer.arrived(chunk);
                }
            }
            at += 1;
        }
        poll_flows(&mut self.flows, &mut self.fair)
    }

    fn refill(&mut self, index: usize) -> Refilled {
        let flow = &mut self.flows[index];
        if flow.transfer.wants(flow.id, &self.fair) {
            if let Ok(chunk) = self.ends[index].incoming.try_recv() {
                flow.transfer.arrived(chunk);
            }
        }
        flow.transfer.refill(flow.id, &mut self.fair)
    }

    fn send(&mut self, index: usize, value: Vec<u8>) {
        match self.flows[index].transfer.send(value, false) {
            Sending::Pass(value) => {
                let upstream = self.ends[index].upstream.as_mut().expect("a flow that sends has a queue");
                assert!(upstream.send_item(value).is_ok());
            }
            other => unreachable!("a place was reserved, not {other:?}"),
        }
    }
}

/// One flow with what its reader queued, and then went.
fn left_behind(chunks: Vec<Chunk>) -> (Vec<Polling>, FairQueue) {
    let mut fair = FairQueue::with_capacity(4);
    assert!(fair.register(id(7, 100)));
    let mut transfer = Transfer::new();
    for chunk in chunks {
        transfer.arrived(chunk);
    }
    let flows = vec![Polling {
        id: id(7, 100),
        transfer,
        receiving: false,
    }];
    (flows, fair)
}

#[test]
fn a_queued_chunk_wakes_the_owner_through_its_own_queue() {
    let flow = id(7, 100);
    let mut wired = wired(&[flow]);
    let (woken, waker) = counting();
    let mut cx = Context::from_waker(&waker);
    assert_eq!(wired.scan(&mut cx), Ready::Nothing);
    assert_eq!(woken.0.load(Ordering::Relaxed), 0);
    assert!(wired.ends[0].reader.try_send(Chunk::Payload(vec![1, 2])).is_ok());
    assert_eq!(woken.0.load(Ordering::Relaxed), 1);
    assert_eq!(wired.scan(&mut cx), Ready::Delivered(flow));
    assert_eq!(wired.fair.peek(flow), Some(vec![1, 2]));
}

#[test]
fn a_busy_row_is_not_polled_and_needs_no_wake() {
    let flow = id(7, 100);
    let mut wired = wired(&[flow]);
    let (woken, waker) = counting();
    let mut cx = Context::from_waker(&waker);
    assert!(wired.ends[0].reader.try_send(Chunk::Payload(vec![1])).is_ok());
    assert_eq!(wired.scan(&mut cx), Ready::Delivered(flow));
    let before = woken.0.load(Ordering::Relaxed);
    assert_eq!(wired.scan(&mut cx), Ready::Nothing);
    assert!(wired.ends[0].reader.try_send(Chunk::Payload(vec![2])).is_ok());
    assert_eq!(woken.0.load(Ordering::Relaxed), before);
    // Consuming the row is what takes the next chunk.
    let mut round = wired.fair.begin_round();
    assert_eq!(wired.fair.next(&mut round), Some(flow));
    assert_eq!(wired.fair.serviced(flow, 1), Progress::Consumed);
    assert_eq!(wired.refill(0), Refilled::Payload);
    assert_eq!(wired.fair.peek(flow), Some(vec![2]));
}

#[test]
fn one_delivery_per_scan_and_every_flow_gets_its_turn() {
    let (first, second) = (id(7, 100), id(8, 101));
    let mut wired = wired(&[first, second]);
    let (_woken, waker) = counting();
    let mut cx = Context::from_waker(&waker);
    assert!(wired.ends[0].reader.try_send(Chunk::Payload(vec![1])).is_ok());
    assert!(wired.ends[1].reader.try_send(Chunk::Payload(vec![2])).is_ok());
    let mut delivered = Vec::new();
    for round in 0..2 {
        match wired.scan(&mut cx) {
            Ready::Delivered(id) => delivered.push(id),
            other => unreachable!("both flows have payload waiting, not {other:?}"),
        }
        let held = [first, second].iter().filter(|id| wired.fair.owes(**id)).count();
        assert_eq!(held, round + 1, "one chunk is moved in a scan");
    }
    assert_eq!(delivered.len(), 2);
    assert!(delivered.contains(&first) && delivered.contains(&second));
    assert_eq!(wired.scan(&mut cx), Ready::Nothing);
}

#[test]
fn capacity_restored_by_the_task_is_what_makes_the_owner_runnable() {
    let mut wired = wired(&[id(7, 100)]);
    wired.flows[0].receiving = true;
    let (woken, waker) = counting();
    let mut cx = Context::from_waker(&waker);
    assert_eq!(wired.scan(&mut cx), Ready::Upstream);
    assert!(wired.flows[0].transfer.reserved());
    wired.send(0, vec![1]);
    assert_eq!(wired.scan(&mut cx), Ready::Nothing);
    assert!(!wired.flows[0].transfer.reserved());
    assert_eq!(woken.0.load(Ordering::Relaxed), 0);
    assert_eq!(wired.ends[0].task.try_recv(), Ok(vec![1]));
    assert_eq!(woken.0.load(Ordering::Relaxed), 1);
    assert_eq!(wired.scan(&mut cx), Ready::Upstream);
    wired.send(0, vec![2]);
    assert_eq!(wired.ends[0].task.try_recv(), Ok(vec![2]));
}

#[test]
fn a_stack_with_nothing_to_move_is_not_answered_as_work() {
    let mut wired = wired(&[id(7, 100)]);
    let (_woken, waker) = counting();
    let mut cx = Context::from_waker(&waker);
    for _ in 0..2 {
        assert_eq!(wired.scan(&mut cx), Ready::Nothing);
        assert!(wired.flows[0].transfer.reserved());
    }
}

#[test]
fn a_clean_terminal_leaves_queued_payload_and_the_end_of_stream_to_be_delivered() {
    let flow = id(7, 100);
    let mut wired = wired(&[flow]);
    let (_woken, waker) = counting();
    let mut cx = Context::from_waker(&waker);
    assert!(wired.ends[0].reader.try_send(Chunk::Payload(vec![1, 2, 3])).is_ok());
    assert!(wired.ends[0].reader.try_send(Chunk::Finished).is_ok());
    wired.ends[0].reader = mpsc::channel(1).0;
    assert_eq!(wired.scan(&mut cx), Ready::Delivered(flow));
    assert_eq!(wired.fair.peek(flow), Some(vec![1, 2, 3]));
    assert!(
        !wired.flows[0].transfer.finished(),
        "the end of stream is still queued behind the payload"
    );
    let mut round = wired.fair.begin_round();
    assert_eq!(wired.fair.next(&mut round), Some(flow));
    assert_eq!(wired.fair.serviced(flow, 3), Progress::Consumed);
    assert_eq!(wired.refill(0), Refilled::Finished);
    assert!(wired.flows[0].transfer.finished());
    assert_eq!(wired.fair.serviced(flow, 0), Progress::Eof);
    assert_eq!(wired.scan(&mut cx), Ready::Nothing);
}

#[test]
fn a_clean_terminal_disposes_of_the_flow_before_anything_of_its_is_discarded() {
    let flow = id(7, 100);
    let (mut flows, mut fair) = left_behind(vec![Chunk::Payload(vec![1, 2, 3]), Chunk::Finished]);
    assert_eq!(poll_flows(&mut flows, &mut fair), Ready::Delivered(flow));
    assert_eq!(dispose(&Ended::Expected, false, true, flow, &mut fair), Disposition::Detach);
    assert!(fair.is_admitted(flow), "the identity may still be delivered to");
    assert_eq!(fair.peek(flow), Some(vec![1, 2, 3]));
    assert!(fair.owes(flow));
    let mut round = fair.begin_round();
    assert_eq!(fair.next(&mut round), Some(flow));
    assert_eq!(fair.serviced(flow, 3), Progress::Consumed);
    assert_eq!(flows[0].transfer.refill(flow, &mut fair), Refilled::Finished);
    assert!(flows[0].transfer.finished());
    assert_eq!(fair.serviced(flow, 0), Progress::Eof);
    assert!(!fair.owes(flow));
}

#[test]
fn an_ending_that_is_not_a_clean_completion_discards_the_row_it_ends() {
    let flow = id(7, 100);
    let (mut flows, mut fair) = left_behind(vec![Chunk::Payload(vec![9; 4])]);
    assert_eq!(poll_flows(&mut flows, &mut fair), Ready::Delivered(flow));
    let ended = Ended::Reported("a peer that reset".to_owned());
    match dispose(&ended, false, true, flow, &mut fair) {
        Disposition::Retire(Some(discarded)) => assert_eq!(discarded, vec![9; 4]),
        other => unreachable!("an ending discards the row it ends, not {other:?}"),
    }
    assert!(!fair.is_admitted(flow));
    assert_eq!(fair.peek(flow), None);
    assert!(!fair.owes(flow));
}

#[test]
fn only_a_clean_ending_that_nobody_asked_for_detaches_an_open_flow() {
    let flow = id(7, 100);
    let failed = Ended::Failed {
        context: "shizuku.tcp_upstream_adopt",
        error: IoError::other("gone"),
    };
    for (ended, cancelled, opened) in [
        (&Ended::Expected, true, true),
        (&Ended::Expected, false, false),
        (&failed, false, true),
    ] {
        let (_, mut fair) = left_behind(Vec::new());
        assert_eq!(dispose(ended, cancelled, opened, flow, &mut fair), Disposition::Retire(None));
        assert!(!fair.is_admitted(flow));
    }
}

#[test]
fn a_retiring_identity_is_never_delivered_to() {
    let flow = id(7, 100);
    let (mut flows, mut fair) = left_behind(vec![Chunk::Payload(vec![4])]);
    assert!(fair.begin_retire(flow).is_none());
    assert_eq!(poll_flows(&mut flows, &mut fair), Ready::Nothing);
    assert_eq!(fair.peek(flow), None);
    assert_eq!(flows[0].transfer.refill(flow, &mut fair), Refilled::Queued);
    // The same socket under a successor's identity, which was never taken in.
    let stale = id(7, 101);
    assert!(!fair.is_admitted(stale));
    flows[0].id = stale;
    assert_eq!(poll_flows(&mut flows, &mut fair), Ready::Nothing);
    assert_eq!(fair.deliver(stale, vec![5]), Err(vec![5]));
}

#[test]
fn the_half_close_releases_the_slot_and_closes_the_queue() {
    let mut wired = wired(&[id(7, 100)]);
    wired.flows[0].receiving = true;
    let (_woken, waker) = counting();
    let mut cx = Context::from_waker(&waker);
    assert_eq!(wired.scan(&mut cx), Ready::Upstream);
    wired.send(0, vec![1]);
    wired.flows[0].transfer.stop_sending();
    wired.ends[0].upstream = None;
    assert!(!wired.flows[0].transfer.sending());
    assert_eq!(wired.ends[0].task.try_recv(), Ok(vec![1]));
    assert_eq!(wired.ends[0].task.try_recv(), Err(mpsc::error::TryRecvError::Disconnected));
    assert_eq!(wired.scan(&mut cx), Ready::Nothing);
    match wired.flows[0].transfer.send(vec![2u8], false) {
        Sending::Refuse(Unsent(Some(value))) => assert_eq!(value, vec![2]),
        _ => unreachable!("a flow with no slot hands the chunk back"),
    }
}

#[test]
fn the_end_of_the_stream_stays_behind_the_octets_before_it() {
    let flow = id(7, 100);
    let (mut flows, mut fair) = left_behind(vec![
        Chunk::Payload(vec![1, 2]),
        Chunk::Payload(vec![3]),
        Chunk::Finished,
    ]);
    let mut told = Vec::new();
    for expected in [Refilled::Payload, Refilled::Payload, Refilled::Finished, Refilled::Idle] {
        assert!(!flows[0].transfer.finished() || expected == Refilled::Idle);
        assert_eq!(flows[0].transfer.refill(flow, &mut fair), expected);
        while let Some(left) = fair.peek(flow) {
            assert_eq!(flows[0].transfer.refill(flow, &mut fair), Refilled::Queued, "the row is busy");
            told.push(left[0]);
            fair.serviced(flow, 1);
        }
    }
    assert_eq!(told, vec![1, 2, 3]);
    assert!(flows[0].transfer.finished());
}

#[test]
fn a_row_keeps_its_offset_and_its_place_in_the_order() {
    let (one, two) = (id(1, 1), id(2, 2));
    let mut fair = FairQueue::with_capacity(2);
    assert!(fair.register(one) && fair.register(two));
    assert!(!fair.register(one), "it is there already");
    assert!(!fair.register(id(3, 3)), "no row is left for it");
    assert_eq!(fair.deliver(one, vec![1, 2, 3]), Ok(()));
    assert_eq!(fair.deliver(one, vec![4]), Err(vec![4]));
    assert_eq!(fair.deliver(two, vec![5]), Ok(()));
    let mut round = fair.begin_round();
    assert_eq!(fair.next(&mut round), Some(one));
    assert_eq!(fair.serviced(one, 2), Progress::Blocked);
    assert_eq!(fair.peek(one), Some(vec![3]));
    assert_eq!(fair.next(&mut round), Some(two));
    assert_eq!(fair.serviced(two, 1), Progress::Consumed);
    assert_eq!(fair.next(&mut round), None, "a round is over after one turn each");
    let mut round = fair.begin_round();
    assert_eq!(fair.next(&mut round), Some(one));
    assert_eq!(fair.serviced(one, 0), Progress::Blocked);
    assert_eq!(fair.peek_at_most(one, 0), Some(Vec::new()));
    assert_eq!(fair.serviced(two, 0), Progress::Idle);
    fair.mark_ready(two);
    fair.forget(one);
    let mut round = fair.begin_round();
    assert_eq!(fair.next(&mut round), Some(two));
    assert_eq!(fair.next(&mut round), None);
    assert!(fair.register(id(3, 3)));
}
