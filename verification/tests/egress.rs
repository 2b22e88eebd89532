use vpnhotspotd::addr::{IpAddr, SocketAddr};
use vpnhotspotd::echo::{Fragmentation, LocalError};
use vpnhotspotd::egress::{
    connecting, keep_local, mtu_discover, next, receive, Connecting, Control, Drained, QueueMessage, Received,
    Reported, SocketError, IP_PMTUDISC_OMIT,
};
use vpnhotspotd::ended::Ended;
use vpnhotspotd::protocol::{ErrorKind, IoError};
use vpnhotspotd::reply::{
    buffer_length, ended, gate, replied, reply_channel_bytes, Bound, Event, Sizing, MAX_DATAGRAM,
};
use vpnhotspotd::reply_bound::{self, Turned};

const SOURCE: SocketAddr = SocketAddr { ip: IpAddr::V4(0xc633_6401), port: 53 };

fn socket_error(origin: u8, errno: i32) -> SocketError {
    SocketError {
        errno: errno as u32,
        origin,
        message_type: 3,
        code: 4,
        info: 1400,
    }
}

fn message(controls: Vec<Control>) -> Result<Option<QueueMessage>, IoError> {
    Ok(Some(QueueMessage {
        bytes: 3,
        destination: Some(SOURCE),
        controls: Ok(controls),
    }))
}

#[test]
fn path_mtu_discovery_follows_the_clients_bit() {
    assert_eq!(mtu_discover(Fragmentation::Prohibited), libc::IP_PMTUDISC_DO);
    assert_eq!(mtu_discover(Fragmentation::Permitted), IP_PMTUDISC_OMIT);
}

#[test]
fn a_received_datagram_has_a_source_and_a_hop_limit() {
    let controls = || vec![Control::Ipv4Ttl(9), Control::Other, Control::Ipv4Ttl(57)];
    assert_eq!(
        receive(4, Some(SOURCE), Ok(controls())).unwrap(),
        Received { bytes: 4, source: SOURCE, hop_limit: 57 }
    );
    assert_eq!(
        receive(4, Some(SOURCE), Ok(vec![Control::Ipv6HopLimit(1)])).unwrap().hop_limit,
        1
    );
    assert!(receive(4, None, Ok(controls())).is_err());
    assert!(receive(4, Some(SOURCE), Ok(vec![Control::Ipv4Ttl(256)])).is_err());
    assert!(receive(4, Some(SOURCE), Ok(Vec::new())).is_err());
    let failed = receive(4, Some(SOURCE), Err("truncated".to_owned())).unwrap_err();
    assert_eq!(failed.text(), "failed to read ancillary data: truncated");
}

#[test]
fn an_error_queue_tells_local_errors_from_remote_ones() {
    let quote = [1, 2, 3, 4];
    let local = message(vec![Control::Ipv4Error(
        socket_error(libc::SO_EE_ORIGIN_LOCAL, libc::EMSGSIZE),
        None,
    )]);
    assert_eq!(
        next(local, &quote).unwrap(),
        Some(Drained::Local(LocalError { errno: libc::EMSGSIZE, info: 1400 }))
    );
    let remote = message(vec![
        Control::Ipv4Error(socket_error(libc::SO_EE_ORIGIN_ICMP, libc::ECONNREFUSED), Some(7)),
        Control::Ipv4Ttl(60),
    ]);
    assert_eq!(
        next(remote, &quote).unwrap(),
        Some(Drained::Remote(Reported {
            remote: IpAddr::V4(7),
            destination: Some(SOURCE),
            hop_limit: 60,
            message_type: 3,
            code: 4,
            info: 1400,
            quoted: vec![1, 2, 3],
        }))
    );
    let nobody = message(vec![Control::Ipv4Error(
        socket_error(libc::SO_EE_ORIGIN_ICMP, libc::ECONNREFUSED),
        None,
    )]);
    assert_eq!(next(nobody, &quote).unwrap(), Some(Drained::Neither));
    assert_eq!(next(message(vec![Control::Other]), &quote).unwrap(), Some(Drained::Neither));
    assert_eq!(next(Ok(None), &quote).unwrap(), None);
    assert!(next(Err(IoError::other("gone")), &quote).is_err());
}

#[test]
fn the_first_local_error_stays() {
    let error = |errno| Drained::Local(LocalError { errno, info: 0 });
    let mut kept = keep_local(None, &Drained::Neither);
    assert_eq!(kept, None);
    kept = keep_local(kept, &error(5));
    kept = keep_local(kept, &error(6));
    assert_eq!(kept, Some(LocalError { errno: 5, info: 0 }));
}

#[test]
fn a_connection_under_way_is_not_a_failure() {
    assert!(matches!(connecting(Ok(())), Connecting::Connected));
    let error = |errno| IoError {
        errno: Some(errno),
        ..IoError::other("connect")
    };
    assert!(matches!(connecting(Err(error(libc::EINPROGRESS))), Connecting::Settling));
    assert!(matches!(connecting(Err(error(libc::ECONNREFUSED))), Connecting::Failed(_)));
}

#[test]
fn a_worker_replies_with_what_it_received() {
    assert_eq!(buffer_length(Sizing::Peek, 12), 12);
    assert_eq!(buffer_length(Sizing::Fixed, 12), MAX_DATAGRAM);
    let received = Received { bytes: 2, source: SOURCE, hop_limit: 60 };
    match replied(4u16, 9, received, &[1, 2, 3]) {
        Event::Reply { key: 4, id: 9, remote, hop_limit: 60, payload } => {
            assert_eq!((remote, payload), (SOURCE, vec![1, 2]));
        }
        _ => unreachable!("a datagram is a reply"),
    }
    assert!(reply_channel_bytes::<u16>(1).unwrap() > MAX_DATAGRAM as u64);
}

#[test]
fn a_worker_reports_one_remote_error_and_nothing_else() {
    let reported = || Reported {
        remote: IpAddr::V4(7),
        destination: None,
        hop_limit: 60,
        message_type: 3,
        code: 3,
        info: 0,
        quoted: vec![1],
    };
    let mut bound = Bound::new();
    assert!(bound.event(4u16, 9).is_none());
    assert!(matches!(bound.took(Ok(None)), Ok(reply_bound::Drained::Empty)));
    assert!(matches!(bound.took(Ok(Some(Drained::Neither))), Ok(reply_bound::Drained::Neither)));
    let local = Drained::Local(LocalError { errno: 1, info: 0 });
    assert!(matches!(bound.took(Ok(Some(local))), Ok(reply_bound::Drained::Local)));
    assert!(bound.event(4u16, 9).is_none());
    assert!(matches!(
        bound.took(Ok(Some(Drained::Remote(reported())))),
        Ok(reply_bound::Drained::Remote)
    ));
    match bound.event(4u16, 9) {
        Some(Event::Error { key: 4, id: 9, error }) => assert_eq!(error, reported()),
        _ => unreachable!("the error that was found is the event"),
    }
    assert!(bound.event(4u16, 9).is_none());
    assert!(bound.took(Err(IoError::other("gone"))).is_err());
}

#[test]
fn a_worker_ends_with_its_commit_its_owner_or_its_socket() {
    assert!(gate(false, None).is_ok());
    assert!(gate(true, Some(true)).is_ok());
    assert!(matches!(gate(true, Some(false)), Err(Ended::Expected)));
    assert!(matches!(gate(true, None), Err(Ended::Expected)));
    assert!(ended(Turned::Sent).is_none());
    assert!(ended(Turned::Reported).is_none());
    assert!(ended(Turned::Released).is_none());
    assert!(matches!(ended(Turned::Cancelled), Some(Ended::Expected)));
    assert!(matches!(ended(Turned::Closed), Some(Ended::Expected)));
    let failed = ended(Turned::Failed(IoError::new(ErrorKind::Other, "gone".to_owned())));
    assert!(matches!(failed, Some(Ended::Failed { context: "shizuku.reply_receive", .. })));
}
