use vpnhotspotd::ipv4_identification::{Guarded, Ipv4Identifications, Terminal, MDL};
use vpnhotspotd::tun_handoff::{accepting, offered, Batch, Progress, Rejected, DATAGRAMS};

const OPENED: u64 = 1_000;
const CLIENT: u32 = 0xc000_0202;
const REMOTE: u32 = 0xc633_6401;

fn guarded() -> Guarded {
    let mut identifications = Ipv4Identifications::new(OPENED);
    identifications
        .next((REMOTE, CLIENT, 17), OPENED + MDL)
        .expect("the quarantine has passed")
}

#[test]
fn a_batch_no_packet_of_which_was_written_owes_an_unwritten_ending() {
    let guarded = guarded();
    // A batch the writer refused before its first write: packetization was invalid, so no packet outcome
    // was ever recorded.
    let refused = Progress::default();
    assert_eq!(refused.written(), None);
    assert_eq!(
        refused.terminal(Some(guarded)),
        Some(Terminal::unwritten(guarded))
    );

    // And one cancelled while its first packet waited for the descriptor to become writable.
    let mut cancelled = Progress::default();
    assert!(
        !cancelled.packet(None),
        "a packet that never went stops the batch"
    );
    assert_eq!(cancelled.written(), None);
    assert_eq!(
        cancelled.terminal(Some(guarded)),
        Some(Terminal::unwritten(guarded))
    );
}

#[test]
fn a_partially_written_batch_owes_its_last_successful_write() {
    let guarded = guarded();
    let base = OPENED;
    let first = base + 1_000_000;
    let second = base + 2_000_000;

    // Two fragments reached the wire and the third was cancelled: the ending is dated to the second.
    let mut cancelled = Progress::default();
    assert!(cancelled.packet(Some(first)));
    assert!(cancelled.packet(Some(second)));
    assert!(!cancelled.packet(None));
    assert_eq!(cancelled.written(), Some(second));
    assert_eq!(
        cancelled.terminal(Some(guarded)),
        Some(Terminal::wrote(guarded, second))
    );

    // Same for a batch whose next write failed fatally, which records no outcome for that packet at all.
    let mut failed = Progress::default();
    assert!(failed.packet(Some(first)));
    assert_eq!(
        failed.terminal(Some(guarded)),
        Some(Terminal::wrote(guarded, first))
    );

    // A batch every packet of which went is the same decision, dated to the last of them.
    let mut whole = Progress::default();
    assert!(whole.packet(Some(first)));
    assert!(whole.packet(Some(second)));
    assert_eq!(
        whole.terminal(Some(guarded)),
        Some(Terminal::wrote(guarded, second))
    );
}

#[test]
fn an_unguarded_batch_owes_no_ending_however_far_it_got() {
    let mut progress = Progress::default();
    assert_eq!(progress.terminal(None), None);
    assert!(progress.packet(Some(OPENED)));
    assert_eq!(progress.terminal(None), None);
}

#[test]
fn a_full_queue_refuses_and_a_closed_one_does_not_look_full() {
    assert_eq!(offered(DATAGRAMS, false), Ok(()));
    assert_eq!(offered(0, false), Err(Rejected::Full));
    assert_eq!(offered(0, true), Err(Rejected::Closed));
    assert_eq!(offered(DATAGRAMS, true), Err(Rejected::Closed));
    assert!(accepting(DATAGRAMS, false));
    assert!(!accepting(0, false));
    assert!(accepting(0, true), "a closed handoff must not look like one that will drain");
}

#[test]
fn a_batch_keeps_its_packets_and_its_guard() {
    let guarded = guarded();
    let batch = Batch::new(vec![vec![1], vec![2, 3]], Some(guarded));
    assert_eq!(batch.packets(), &[vec![1], vec![2, 3]]);
    assert_eq!(batch.guarded(), Some(guarded));
    assert_eq!(batch.into_packets(), vec![vec![1], vec![2, 3]]);
}
