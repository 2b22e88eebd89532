use vpnhotspotd::echo_socket::{Family, Refused, Sockets};
use vpnhotspotd::workers::TaskId;

#[test]
fn one_socket_per_family_is_held_until_its_receiver_ended() {
    let mut sockets: Sockets<&str> = Sockets::new();
    assert!(sockets.held(Family::Ipv4).is_none());
    let id = sockets.identity(true).expect("a fresh table issues identities");
    assert!(sockets.enroll(Family::Ipv4, id, "first", TaskId(1)).is_ok());
    let next = sockets.identity(true).expect("identities go on");
    assert_ne!(next, id);
    assert!(matches!(
        sockets.enroll(Family::Ipv4, next, "second", TaskId(2)),
        Err(Refused::Unavailable)
    ));
    assert_eq!(sockets.held(Family::Ipv4), Some(&"first"));
    assert!(sockets.held(Family::Ipv6).is_none());
    assert!(sockets.current(Family::Ipv4, id));
    assert!(!sockets.current(Family::Ipv4, next));
    assert!(sockets.working());
    assert_eq!(sockets.finished(TaskId(1)), Some((Family::Ipv4, id)));
    assert!(!sockets.working());
    assert!(!sockets.close(Family::Ipv4, next), "another identity closes nothing");
    assert!(sockets.close(Family::Ipv4, id));
    assert_eq!(sockets.len(), 0);
}

#[test]
fn a_socket_that_cannot_be_opened_is_told_from_one_that_is_unavailable() {
    let mut sockets: Sockets<()> = Sockets::new();
    assert_eq!(sockets.identity(false), Err(Refused::OpenFailed));
    assert_eq!(sockets.identity(true), Ok(0), "a socket that was not opened uses no identity up");
}
