use vpnhotspotd::addr::IpAddr;
use vpnhotspotd::echo::{
    AfterSend, Fragmentation, LocalError, PathMtu, Refused, Relay, Request, Untranslatable,
};
use vpnhotspotd::echo_session::{Found, Identity, Sessions, ECHO_TIMEOUT};
use vpnhotspotd::protocol::{ErrorKind, IoError};
use vpnhotspotd::send_failure::{classify, Failure};

const CLIENT: IpAddr = IpAddr::V4(0xc000_0202);
const REMOTE: IpAddr = IpAddr::V4(0xc633_6401);
const OTHER: IpAddr = IpAddr::V4(0xc633_6402);
const IDENTITY: Identity = Identity {
    identifier: 77,
    sequence: 5,
};
const NOW: u64 = 1_000;

fn request() -> Request {
    Request {
        client: CLIENT,
        remote: REMOTE,
        hop_limit: 63,
        dont_fragment: true,
        identity: IDENTITY,
    }
}

#[test]
fn a_sequence_in_flight_is_not_allocated_again() {
    let mut sessions = Sessions::default();
    let first = sessions.allocate(REMOTE).unwrap();
    sessions.insert(REMOTE, first, CLIENT, IDENTITY, 63, NOW);
    let second = sessions.allocate(REMOTE).unwrap();
    assert_ne!(first, second);
    assert_eq!(sessions.len(), 1);
    assert_eq!(sessions.next_deadline(), Some(NOW + ECHO_TIMEOUT));
    let session = sessions.take(REMOTE, first).unwrap();
    assert_eq!((session.client, session.identity, session.hop_limit), (CLIENT, IDENTITY, 63));
    assert!(sessions.take(REMOTE, first).is_none(), "one reply per request");
}

#[test]
fn a_sequence_of_two_remotes_is_ambiguous_without_one() {
    let mut sessions = Sessions::default();
    sessions.insert(REMOTE, 9, CLIENT, IDENTITY, 63, NOW);
    assert!(matches!(sessions.take_by_sequence(8), Found::Missing));
    sessions.insert(OTHER, 9, CLIENT, IDENTITY, 63, NOW);
    assert!(matches!(sessions.take_by_sequence(9), Found::Ambiguous));
    assert_eq!(sessions.len(), 2, "nothing was taken");
    assert!(sessions.take(OTHER, 9).is_some());
    assert!(matches!(sessions.take_by_sequence(9), Found::One { remote: REMOTE, .. }));
    sessions.insert(REMOTE, 9, CLIENT, IDENTITY, 63, NOW);
    sessions.insert(OTHER, 9, CLIENT, IDENTITY, 63, NOW + 5);
    let (expired, found) = sessions.take_live_by_sequence(false, 9, NOW + ECHO_TIMEOUT);
    assert_eq!(expired, 1);
    assert!(matches!(found, Found::One { remote: OTHER, .. }));
    sessions.insert(REMOTE, 9, CLIENT, IDENTITY, 63, NOW);
    assert_eq!(sessions.expire(NOW + ECHO_TIMEOUT - 1), 0);
    assert_eq!(sessions.expire(NOW + ECHO_TIMEOUT), 1);
    sessions.insert(REMOTE, 9, CLIENT, IDENTITY, 63, NOW);
    sessions.clear();
    assert_eq!((sessions.len(), sessions.next_deadline()), (0, None));
}

#[test]
fn a_reply_finds_the_request_that_was_sent() {
    let mut relay = Relay::new();
    assert_eq!(relay.begin(Some(62)), Some(62));
    assert!(relay.acquired(Ok(())));
    assert_eq!(Relay::fragmentation(&request()), Some(Fragmentation::Prohibited));
    assert!(relay.fragmentation_set(true));
    let sequence = relay.allocate(REMOTE).unwrap();
    assert!(matches!(relay.sent(&request(), sequence, Ok(()), NOW), AfterSend::Done));
    assert_eq!(relay.next_deadline(), Some(NOW + ECHO_TIMEOUT));
    assert!(relay.reply(true, OTHER, Some(sequence), Some(60), NOW).is_none());
    let (session, hop_limit) = relay.reply(true, REMOTE, Some(sequence), Some(60), NOW).unwrap();
    assert_eq!((session.client, session.identity, hop_limit), (CLIENT, IDENTITY, 60));
    assert!(relay.reply(true, REMOTE, Some(sequence), Some(60), NOW).is_none());
    relay.queued(true);
    assert!(matches!(relay.sent(&request(), sequence, Ok(()), NOW), AfterSend::Done));
    assert!(
        relay.reply(true, REMOTE, Some(sequence), Some(60), NOW + ECHO_TIMEOUT).is_none(),
        "a late reply is unmatched"
    );
    relay.sweep(NOW + ECHO_TIMEOUT);
    assert!(relay.describe(1).starts_with("0 sessions over 1 sockets, sent 2 queued 1 unqueued 0 "));
}

#[test]
fn a_request_that_does_not_go_is_counted_and_not_waited_for() {
    let mut relay = Relay::new();
    assert_eq!(relay.begin(None), None);
    assert!(!relay.acquired(Err(Refused::Denied)));
    assert!(!relay.acquired(Err(Refused::OpenFailed)));
    assert!(!relay.fragmentation_set(false));
    let sequence = relay.allocate(REMOTE).unwrap();
    for (failure, after) in [
        (Failure::TooBig, "ReadPathMtu"),
        (Failure::Blocked, "Done"),
        (Failure::Unreachable, "Done"),
        (Failure::Unexpected, "ReportFailure"),
    ] {
        let sent = relay.sent(&request(), sequence, Err(failure), NOW);
        assert_eq!(format!("{sent:?}"), after);
        assert_eq!(relay.next_deadline(), None);
    }
    assert!(matches!(
        relay.path_mtu(Ok(Some(LocalError { errno: libc::EMSGSIZE, info: 1400 }))),
        PathMtu::Report(1400)
    ));
    assert!(matches!(
        relay.path_mtu(Ok(Some(LocalError { errno: libc::ENOBUFS, info: 1400 }))),
        PathMtu::Unattributable
    ));
    assert!(matches!(relay.path_mtu(Ok(None)), PathMtu::Unattributable));
    assert!(matches!(relay.path_mtu(Err(())), PathMtu::Failed));
    let ipv6 = Request {
        client: IpAddr::V6(1),
        remote: IpAddr::V6(2),
        ..request()
    };
    assert_eq!(Relay::fragmentation(&ipv6), None);
}

#[test]
fn an_error_is_repeated_to_the_one_request_it_can_be_about() {
    let mut relay = Relay::new();
    assert!(matches!(relay.sent(&request(), 4, Ok(()), NOW), AfterSend::Done));
    assert!(relay.repeat(false, false, Some(4), false, NOW).is_none(), "the socket is gone");
    assert!(relay.repeat(true, false, None, false, NOW).is_none(), "nothing is quoted");
    assert!(relay.repeat(true, false, Some(3), false, NOW).is_none(), "nothing was sent");
    let (remote, session) = relay.repeat(true, false, Some(4), false, NOW).unwrap();
    assert_eq!((remote, session.client), (REMOTE, CLIENT));
    assert!(relay.translated(Ok(())));
    assert!(!relay.translated(Err(Untranslatable::Implausible)));
    assert!(!relay.translated(Err(Untranslatable::Other)));
    assert!(matches!(relay.sent(&request(), 4, Ok(()), NOW), AfterSend::Done));
    relay.sweep(NOW + ECHO_TIMEOUT);
    assert_eq!(relay.next_deadline(), None);
}

#[test]
fn a_failed_send_is_read_by_its_number() {
    let error = |kind, errno| IoError {
        errno: Some(errno),
        ..IoError::new(kind, "failed".to_owned())
    };
    assert!(matches!(classify(&error(ErrorKind::WouldBlock, libc::EMSGSIZE), false), Failure::Blocked));
    assert!(matches!(classify(&error(ErrorKind::Other, libc::EMSGSIZE), false), Failure::TooBig));
    assert!(matches!(classify(&error(ErrorKind::Other, libc::ENONET), false), Failure::Unreachable));
    assert!(matches!(classify(&error(ErrorKind::Other, libc::EHOSTUNREACH), true), Failure::Unreachable));
    assert!(matches!(classify(&error(ErrorKind::Other, libc::EPERM), false), Failure::Unexpected));
}

#[test]
fn an_error_that_was_rebuilt_is_told_from_one_that_was_not() {
    let mut relay = Relay::new();
    relay.rebuilt(true);
    relay.rebuilt(true);
    relay.rebuilt(false);
    let told = relay.describe(0);
    assert!(told.contains("translated 2"), "{told}");
    assert!(told.contains("implausible 1"), "{told}");
}
