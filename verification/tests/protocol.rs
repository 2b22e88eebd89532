use vpnhotspotd::addr::IpAddr;
use vpnhotspotd::protocol::{
    ack_event_frame, ack_reply_frame, complete_frame, neighbour_monitor_update_frame, traffic_counter_lines_frame,
    EventPayload, Frame, ReplyPayload,
};
use vpnhotspotd::protocol::{
    daemon_error_report_with_details, daemon_io_error_report, error_errno, read_ip_address_entry, read_session_config,
    reported_io_error_report, ClientMessage, DaemonErrorReport, DaemonReportError, ErrorDetail, ErrorKind, IoError,
    IoErrorReportExt, IoResultReportExt, IpAddressEntry, Ipv6NatMessage, Ipv6Prefix, MasqueradeMode,
    SessionConfigMessage, Site,
};

fn site(line: u32) -> Site {
    Site {
        file: "src/app.rs".to_owned(),
        line,
        column: 5,
        pid: 77,
    }
}

#[test]
fn report_context_preserves_existing_report() {
    let report = daemon_error_report();
    let error = IoError {
        attached: Some(DaemonReportError::new(report.clone())),
        ..IoError::other("routing.command: Device or resource busy")
    }
    .with_report_context("outer", &site(1));

    assert_eq!(reported_io_error_report(&error), Some(report));
}

fn daemon_error_report() -> DaemonErrorReport {
    DaemonErrorReport {
        context: "routing.command".to_owned(),
        message: "Device or resource busy".to_owned(),
        errno: Some(libc::EBUSY),
        kind: "ResourceBusy".to_owned(),
        file: "routing.rs".to_owned(),
        line: 123,
        column: 45,
        pid: 2345,
        details: vec![ErrorDetail {
            key: "command".to_owned(),
            value: "iptables-restore".to_owned(),
        }],
    }
}

#[test]
fn the_first_context_names_the_place_and_later_ones_change_nothing() {
    let failed: Result<(), IoError> = Err(IoError {
        errno: Some(libc::EBUSY),
        ..IoError::new(ErrorKind::ResourceBusy, "busy".to_owned())
    });
    let error = failed
        .with_report_context_details("inner", &site(7), &vec![("key".to_owned(), "value".to_owned())])
        .with_report_context("outer", &site(9))
        .unwrap_err();
    assert_eq!(error.kind, ErrorKind::ResourceBusy);
    assert_eq!(error.text(), "inner: busy");
    let report = reported_io_error_report(&error).unwrap();
    assert_eq!(
        report,
        DaemonErrorReport {
            context: "inner".to_owned(),
            message: "busy".to_owned(),
            errno: Some(libc::EBUSY),
            kind: "ResourceBusy".to_owned(),
            file: "src/app.rs".to_owned(),
            line: 7,
            column: 5,
            pid: 77,
            details: vec![ErrorDetail {
                key: "key".to_owned(),
                value: "value".to_owned(),
            }],
        }
    );
    assert_eq!(daemon_io_error_report("other", &error, &site(1)), report);
    assert_eq!(error_errno(&error), Some(libc::EBUSY));
}

#[test]
fn a_report_carries_no_field_past_its_bound_and_no_more_details_than_fit() {
    let long = "\u{e9}".repeat(3000);
    let details: Vec<(String, String)> = (0..40).map(|i| (format!("k{i}"), long.clone())).collect();
    let report = daemon_error_report_with_details(&long, &long, "Other", &site(1), &details);
    assert_eq!(report.context.len(), 4099);
    assert_eq!(report.message, format!("{}...", "\u{e9}".repeat(2048)));
    assert_eq!(report.details.len(), 32);
    assert_eq!(report.details[31].key, "k31");
    assert_eq!(report.details[31].value.len(), 4099);
    let odd = format!("a{long}");
    let report = daemon_error_report_with_details(&odd, "m", "Other", &site(1), &Vec::new());
    assert_eq!(report.context.len(), 4098, "a character is kept whole or not at all");
}

fn session() -> SessionConfigMessage {
    SessionConfigMessage {
        downstream: "wlan1".to_owned(),
        ip_forward: true,
        masquerade: 1,
        ipv6_block: false,
        primary_network: Some(0),
        primary_routes: vec![Ipv6Prefix {
            address: 0x2001_0db8_0000_0000_0000_0000_0000_0001u128.to_be_bytes().to_vec(),
            prefix_length: 32,
        }],
        fallback_network: Some(5),
        primary_upstream_interfaces: vec!["rmnet0".to_owned()],
        fallback_upstream_interfaces: Vec::new(),
        clients: vec![ClientMessage {
            mac: vec![1, 2, 3, 4, 5, 6],
            ipv4: vec![vec![192, 0, 2, 7]],
        }],
        ipv6_nat: Some(Ipv6NatMessage {
            prefix_seed: "seed".to_owned(),
        }),
    }
}

#[test]
fn a_session_config_is_read_field_by_field() {
    let read = read_session_config(session(), 77, 9).unwrap();
    assert_eq!((read.reply_mark, read.ipv6_nat.unwrap().gateway), (77, 9));
    assert_eq!(read.masquerade, MasqueradeMode::Simple);
    assert_eq!(read.primary_routes[0].first_address, 0x2001_0db8_0000_0000_0000_0000_0000_0000);
    assert_eq!(read.primary_routes[0].network_length, 32);
    assert_eq!(read.clients[0].mac, [1, 2, 3, 4, 5, 6]);
    assert_eq!(read.clients[0].ipv4, vec![0xc000_0207]);
    assert_eq!(read.fallback_network, Some(5));
}

#[test]
fn a_session_config_that_cannot_be_read_says_why() {
    let refused = |change: fn(&mut SessionConfigMessage)| {
        let mut config = session();
        change(&mut config);
        let error = read_session_config(config, 0, 0).unwrap_err();
        assert_eq!(error.kind, ErrorKind::InvalidData);
        error.text().to_owned()
    };
    assert_eq!(refused(|c| c.masquerade = -4), "invalid masquerade mode -4");
    assert_eq!(
        refused(|c| c.primary_routes[0].prefix_length = 129),
        "invalid IPv6 route prefix length 129"
    );
    assert!(refused(|c| c.primary_routes[0].address = vec![1]).contains("IPv6 route address"));
    assert!(refused(|c| c.clients[0].mac = vec![1]).contains("client mac"));
    assert!(refused(|c| c.clients[0].ipv4[0] = vec![1]).contains("client IPv4 address"));
}

#[test]
fn a_static_address_is_of_either_version() {
    let entry = |address: &[u8], prefix_length| IpAddressEntry {
        address: address.to_vec(),
        prefix_length,
    };
    assert_eq!(
        read_ip_address_entry(&entry(&[192, 0, 2, 1], 24)).unwrap(),
        (IpAddr::V4(0xc000_0201), 24)
    );
    assert_eq!(read_ip_address_entry(&entry(&[0; 16], 128)).unwrap(), (IpAddr::V6(0), 128));
    assert_eq!(
        read_ip_address_entry(&entry(&[0; 4], 33)).unwrap_err().text(),
        "invalid static address prefix length 33"
    );
    assert!(read_ip_address_entry(&entry(&[0; 5], 1)).is_err());
}

#[test]
fn frames_name_their_call_and_carry_their_payload() {
    assert_eq!(
        ack_reply_frame(3).frame,
        Frame::Reply { call_id: 3, payload: ReplyPayload::Ack }
    );
    let lines = vec!["a 1".to_owned(), "b 2".to_owned()];
    assert_eq!(
        traffic_counter_lines_frame(4, &lines).frame,
        Frame::Reply { call_id: 4, payload: ReplyPayload::TrafficCounterLines(lines) }
    );
    assert_eq!(
        ack_event_frame(5).frame,
        Frame::Event { call_id: 5, payload: EventPayload::Ack }
    );
    assert_eq!(
        neighbour_monitor_update_frame(6, vec![vec![1]], Some(vec![2])).frame,
        Frame::Event {
            call_id: 6,
            payload: EventPayload::NeighbourMonitor {
                neighbour_deltas: vec![vec![1]],
                link_topology: Some(vec![2]),
            },
        }
    );
    assert_eq!(complete_frame(7).frame, Frame::Complete { call_id: 7 });
}
