use vpnhotspotd::addr::IpAddr;
use vpnhotspotd::echo::{Fragmentation, LocalError, Refused, Relay, Request};
use vpnhotspotd::echo_relay::{Action, Event, Owed, Relaying};
use vpnhotspotd::echo_session::Identity;
use vpnhotspotd::send_failure::Failure;

const NOW: u64 = 1_000;
const REMOTE: IpAddr = IpAddr::V4(0xc633_6401);

fn request(remote: IpAddr) -> Request {
    Request {
        client: IpAddr::V4(0xc000_0202),
        remote,
        hop_limit: 64,
        dont_fragment: true,
        identity: Identity {
            identifier: 77,
            sequence: 5,
        },
    }
}

fn sending(relay: &mut Relay) -> (Relaying, u16) {
    let (relaying, action) = relay.relay(Some(63));
    assert_eq!(action, Action::Acquire);
    let request = request(REMOTE);
    let (relaying, action) = relay.advance(&request, relaying, Event::Socket(Ok(())), NOW);
    assert_eq!(action, Action::SetFragmentation(Fragmentation::Prohibited));
    let (relaying, action) = relay.advance(&request, relaying, Event::Fragmentation(true), NOW);
    match action {
        Action::Send { sequence, hop_limit: 63 } => (relaying, sequence),
        _ => unreachable!("a request with a socket is sent"),
    }
}

#[test]
fn a_request_is_sent_and_its_reply_finds_it() {
    let mut relay = Relay::new();
    let (relaying, sequence) = sending(&mut relay);
    let over = relay.advance(&request(REMOTE), relaying, Event::Sent(Ok(())), NOW);
    assert_eq!(over, (Relaying::Over, Action::Done));
    let (session, hop_limit) = relay.reply(true, REMOTE, Some(sequence), Some(61), NOW).unwrap();
    assert_eq!((session.client, session.hop_limit, hop_limit), (IpAddr::V4(0xc000_0202), 64, 61));
    assert!(relay.describe(1).contains("sent 1"));
}

#[test]
fn a_request_whose_hop_limit_ran_out_is_reported() {
    let mut relay = Relay::new();
    let (relaying, action) = relay.relay(None);
    assert_eq!(action, Action::Report(Owed::Expired));
    let over = relay.advance(&request(REMOTE), relaying, Event::Reported(true), NOW);
    assert_eq!(over, (Relaying::Over, Action::Done));
    let told = relay.describe(0);
    assert!(told.contains("expired 1"), "{told}");
    assert!(told.contains(" reported 1"), "{told}");
}

#[test]
fn a_request_over_ipv6_is_sent_without_a_word_about_cutting() {
    let mut relay = Relay::new();
    let (relaying, _) = relay.relay(Some(63));
    let (_, action) = relay.advance(&request(IpAddr::V6(7)), relaying, Event::Socket(Ok(())), NOW);
    assert!(matches!(action, Action::Send { hop_limit: 63, .. }));
}

#[test]
fn a_request_that_cannot_be_sent_is_counted_once() {
    let mut relay = Relay::new();
    for refused in [Refused::Denied, Refused::OpenFailed] {
        let (relaying, _) = relay.relay(Some(63));
        let over = relay.advance(&request(REMOTE), relaying, Event::Socket(Err(refused)), NOW);
        assert_eq!(over, (Relaying::Over, Action::Done));
    }
    let (relaying, _) = relay.relay(Some(63));
    let (relaying, _) = relay.advance(&request(REMOTE), relaying, Event::Socket(Ok(())), NOW);
    let over = relay.advance(&request(REMOTE), relaying, Event::Fragmentation(false), NOW);
    assert_eq!(over, (Relaying::Over, Action::TellFailure));
    for (failure, action) in [
        (Failure::Blocked, Action::Done),
        (Failure::Unreachable, Action::Done),
        (Failure::Unexpected, Action::TellFailure),
    ] {
        let (relaying, _) = sending(&mut relay);
        let over = relay.advance(&request(REMOTE), relaying, Event::Sent(Err(failure)), NOW);
        assert_eq!(over, (Relaying::Over, action));
    }
    let told = relay.describe(0);
    for counted in [
        "denied 1",
        "blocked 1",
        "unreachable 1",
        "send-failed 1",
        "df-failed 1",
        "open-failed 1",
    ] {
        assert!(told.contains(counted), "{counted} in {told}");
    }
    assert!(relay.next_deadline().is_none(), "nothing is waited for");
}

#[test]
fn a_request_that_is_too_long_is_reported_with_its_paths_limit() {
    let mut relay = Relay::new();
    let queued = |errno| Event::PathMtu(Ok(Some(LocalError { errno, info: 1280 })));
    for (event, action) in [
        (queued(libc::EMSGSIZE), Action::Report(Owed::TooBig { mtu: 1280 })),
        (queued(libc::EHOSTUNREACH), Action::TellUnattributable),
        (Event::PathMtu(Ok(None)), Action::TellUnattributable),
        (Event::PathMtu(Err(())), Action::TellFailure),
    ] {
        let (relaying, _) = sending(&mut relay);
        let (relaying, read) = relay.advance(&request(REMOTE), relaying, Event::Sent(Err(Failure::TooBig)), NOW);
        assert_eq!(read, Action::ReadPathMtu);
        let (relaying, next) = relay.advance(&request(REMOTE), relaying, event, NOW);
        assert_eq!(next, action);
        if relaying == Relaying::Reported {
            let over = relay.advance(&request(REMOTE), relaying, Event::Reported(false), NOW);
            assert_eq!(over, (Relaying::Over, Action::Done));
        }
    }
    let told = relay.describe(0);
    assert!(told.contains("too-big 4"), "{told}");
    assert!(told.contains("unreported 4"), "{told}");
}
