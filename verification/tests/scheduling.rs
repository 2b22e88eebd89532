use vpnhotspotd::scheduling::{normalized, ORDINARY};

#[test]
fn an_inherited_non_interactive_policy_is_normalized() {
    assert_eq!(normalized(libc::SCHED_BATCH), Some(ORDINARY));
    assert_eq!(normalized(libc::SCHED_IDLE), Some(ORDINARY));
}

#[test]
fn the_ordinary_policy_is_left_alone_rather_than_set_again() {
    assert_eq!(ORDINARY, libc::SCHED_OTHER);
    assert_eq!(normalized(ORDINARY), None);
}

#[test]
fn a_real_time_policy_is_never_lowered() {
    assert_eq!(normalized(libc::SCHED_FIFO), None);
    assert_eq!(normalized(libc::SCHED_RR), None);
    assert_eq!(normalized(6), None);
}
