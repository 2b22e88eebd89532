use vpnhotspotd::addr::{IpAddr, SocketAddr};
use vpnhotspotd::send_history::{History, Resolution};

fn destination(port: u16) -> SocketAddr {
    SocketAddr { ip: IpAddr::V4(0x5db8_d822), port }
}

fn deadline() -> u64 {
    1_000 + 300_000_000_000
}

#[test]
fn history_grows_past_the_removed_fixed_depth() {
    let mut history = History::default();
    for port in 1..=64 {
        history.record(destination(port), 64, deadline());
    }
    for port in 1..=64 {
        assert_eq!(
            history.resolve(destination(port)),
            Resolution::Matched { hop_limit: 64 }
        );
    }
}

#[test]
fn repeated_sends_with_one_hop_limit_keep_one_exact_endpoint() {
    let remote = destination(443);
    let mut history = History::default();
    history.record(remote, 57, deadline());
    history.record(remote, 57, deadline());
    assert_eq!(history.endpoints(remote.ip), 1);
    assert_eq!(
        history.resolve(remote),
        Resolution::Matched { hop_limit: 57 }
    );
}

#[test]
fn differing_hop_limits_make_the_endpoint_ambiguous() {
    let remote = destination(443);
    let mut history = History::default();
    history.record(remote, 57, deadline());
    history.record(remote, 42, deadline());
    assert_eq!(history.endpoints(remote.ip), 1);
    assert_eq!(history.resolve(remote), Resolution::Ambiguous);
}

#[test]
fn an_uncontacted_endpoint_is_not_claimed() {
    let mut history = History::default();
    history.record(destination(443), 57, deadline());
    assert_eq!(history.resolve(destination(53)), Resolution::Untracked);
}

#[test]
fn remote_expiry_drops_its_endpoint_evidence_before_recontact() {
    let remote = destination(443);
    let expires = deadline();
    let mut history = History::default();
    history.record(remote, 57, expires);
    assert!(history.authorizes(remote.ip));
    assert_eq!(history.expire(expires), 1);
    assert!(!history.authorizes(remote.ip));
    assert_eq!(history.resolve(remote), Resolution::Untracked);

    history.record(remote, 42, expires + 300_000_000_000);
    assert_eq!(
        history.resolve(remote),
        Resolution::Matched { hop_limit: 42 }
    );
}

#[test]
fn the_next_deadline_is_the_earliest_of_all_remotes() {
    let mut history = History::default();
    assert_eq!(history.next_deadline(), None);
    history.record(destination(443), 57, 30);
    history.record(SocketAddr { ip: IpAddr::V6(1), port: 443 }, 57, 20);
    assert_eq!(history.next_deadline(), Some(20));
    assert_eq!(history.expire(19), 0);
    assert_eq!(history.expire(20), 1);
    assert!(!history.authorizes(IpAddr::V6(1)));
    assert_eq!(history.next_deadline(), Some(30));
    history.record(destination(53), 57, 40);
    assert_eq!(history.next_deadline(), Some(40), "a later send keeps the remote longer");
    assert_eq!(history.endpoints(destination(53).ip), 2);
}
