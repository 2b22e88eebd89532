use vpnhotspotd::room::{Reserving, Room, Sending, Unsent};

#[test]
fn a_reservation_is_a_slot_rather_than_a_queued_value() {
    let mut room = Room::new();
    assert!(!room.reserved());
    assert!(room.reserve(Reserving::Granted));
    assert!(room.reserved());
    // Asking again while one is in hand reserves nothing further, whatever the queue would say.
    assert!(room.reserve(Reserving::Pending));
    assert!(matches!(room.send(9u8, false), Sending::Pass(9)));
    assert!(!room.reserved());
}

#[test]
fn a_send_with_no_slot_in_hand_is_refused_rather_than_a_panic() {
    let mut room = Room::new();
    assert!(matches!(room.send(3u8, false), Sending::Refuse(Unsent(Some(3)))));
}

#[test]
fn a_worker_that_goes_while_the_slot_is_in_hand_is_answered_rather_than_queued() {
    let mut room = Room::new();
    assert!(room.reserve(Reserving::Granted));
    assert!(matches!(room.send(7u8, true), Sending::Abort(Unsent(Some(7)))));
    assert!(room.closed());
    assert!(!room.reserve(Reserving::Closed));
    assert!(!room.reserve(Reserving::Granted), "permanent, whatever is said afterwards");
}

#[test]
fn a_worker_that_is_gone_is_answered_rather_than_waited_on() {
    let mut room = Room::new();
    assert!(!room.closed());
    assert!(!room.reserve(Reserving::Closed));
    assert!(room.closed());
    assert!(!room.reserve(Reserving::Closed));
    assert!(!room.reserve(Reserving::Granted));
    assert!(matches!(room.send(1u8, true), Sending::Refuse(Unsent(Some(1)))));
}

#[test]
fn a_full_queue_is_asked_again_until_it_grants_a_place() {
    let mut room = Room::new();
    assert!(room.reserve(Reserving::Granted));
    assert!(matches!(room.send(1u8, false), Sending::Pass(1)));
    assert!(!room.reserve(Reserving::Pending));
    assert!(!room.reserved());
    assert!(room.reserve(Reserving::Granted));
    assert!(matches!(room.send(2u8, false), Sending::Pass(2)));
}
