use vpnhotspotd::addr::IpAddr;
use vpnhotspotd::budget::{measure, Totals};
use vpnhotspotd::gateway::Gateways;
use vpnhotspotd::handoff::{
    closed_early, declared_mtu, descriptors, interface_address, interface_mtu, interface_name, nonblocking,
    start_frame_length, tun, TUN_FLAGS,
};
use vpnhotspotd::owned::Owned;
use vpnhotspotd::protocol::{reported_io_error_report, ErrorKind, IoError, Site};
use vpnhotspotd::resolver::{answer, negated_errno, polled, Failure, Polled, Side};

fn site() -> Site {
    Site {
        file: "src/app.rs".to_owned(),
        line: 1,
        column: 2,
        pid: 3,
    }
}

fn refusal<T: std::fmt::Debug>(result: Result<T, IoError>) -> (String, String) {
    let report = reported_io_error_report(&result.unwrap_err()).unwrap();
    (report.context, report.message)
}

#[test]
fn a_start_frame_is_as_long_as_it_says() {
    assert_eq!(start_frame_length(&[0, 0, 1, 2], 300).unwrap(), 258);
    assert_eq!(start_frame_length(&[0, 0, 1, 2], 258).unwrap(), 258);
    let long = start_frame_length(&[0, 0, 1, 2], 257).unwrap_err();
    assert_eq!((long.kind, long.text()), (ErrorKind::InvalidData, "invalid start frame length 258"));
    assert_eq!(start_frame_length(&[0; 4], 257).unwrap_err().text(), "invalid start frame length 0");
    assert_eq!(closed_early().kind, ErrorKind::UnexpectedEof);
}

#[test]
fn one_descriptor_that_does_not_block_is_transferred() {
    assert!(descriptors(1, &site()).is_ok());
    assert_eq!(
        refusal(descriptors(0, &site())),
        ("shizuku.handoff.descriptors".to_owned(), "no descriptor was transferred".to_owned())
    );
    assert_eq!(refusal(descriptors(2, &site())).1, "2 descriptors were transferred");
    assert!(nonblocking(libc::O_RDWR | libc::O_NONBLOCK, &site()).is_ok());
    assert_eq!(
        refusal(nonblocking(libc::O_RDWR, &site())).1,
        "transferred descriptor is blocking"
    );
}

#[test]
fn the_transferred_interface_is_the_declared_one() {
    let mut field = [0u8; 16];
    field[..4].copy_from_slice(b"tun7");
    field[6] = b'x';
    let name = interface_name(&field);
    assert_eq!(name, "tun7");
    field[1] = 0xff;
    assert_eq!(interface_name(&field), "t\u{fffd}n7");
    assert_eq!(interface_name(&[b'a'; 16]), "a".repeat(16));
    assert_eq!(TUN_FLAGS as i32, libc::IFF_TUN | libc::IFF_NO_PI);
    assert!(tun(&name, TUN_FLAGS, "tun7", &site()).is_ok());
    assert_eq!(
        refusal(tun(&name, TUN_FLAGS, "tun8", &site())).1,
        "transferred TUN is tun7 but tun8 was expected"
    );
    assert_eq!(refusal(tun(&name, 0x1002, "tun7", &site())).1, "transferred TUN has flags 0x1002");
    assert_eq!(interface_mtu(1400, &site()).unwrap(), 1400);
    assert_eq!(refusal(interface_mtu(-1, &site())).0, "shizuku.handoff.interface_mtu");
    assert!(declared_mtu(&name, 1400, 1400, &site()).is_ok());
    assert_eq!(
        refusal(declared_mtu(&name, 1400, 1500, &site())).1,
        "tun7 has MTU 1400 but 1500 was declared"
    );
    let inet = libc::AF_INET as u16;
    assert_eq!(interface_address(inet, &[192, 0, 2, 1], &site()).unwrap(), 0xc000_0201);
    assert_eq!(
        refusal(interface_address(libc::AF_INET6 as u16, &[192, 0, 2, 1], &site())).1,
        "interface address is family 10"
    );
}

#[test]
fn a_session_is_measured_by_what_the_process_may_still_open() {
    let measured = measure(1024, 24, 5).unwrap();
    assert_eq!(measured.totals.admission_id, 5);
    assert_eq!(measured.totals.descriptor_total, 1000);
    let Totals { dns_descriptor_floor, .. } = measured.totals;
    assert!(dns_descriptor_floor >= 1 && dns_descriptor_floor <= 1000);
    assert!(measured.describe().starts_with("RLIMIT_NOFILE 1024 less 24 already open leaves 1000 descriptors"));
    assert_eq!(
        measure(10, 11, 5).unwrap_err().text(),
        "RLIMIT_NOFILE 10 leaves no room for 11 open descriptors"
    );
    assert!(measure(u64::MAX, 0, 5).unwrap_err().text().starts_with("implausible RLIMIT_NOFILE"));
    assert!(measure(10, 10, 5).unwrap_err().text().contains("smaller than the 1 the resolver floor requires"));
}

#[test]
fn an_error_comes_from_the_gateway_of_the_packets_version() {
    let gateways = Gateways::new(vec![IpAddr::V6(1), IpAddr::V4(2), IpAddr::V4(3)]);
    assert_eq!(gateways.source_for(&[0x45]), Some(IpAddr::V4(2)));
    assert_eq!(gateways.source_for(&[0x60]), Some(IpAddr::V6(1)));
    assert_eq!(gateways.source_for(&[0x50]), None);
    assert_eq!(gateways.source_for(&[]), None);
    assert_eq!(Gateways::new(vec![IpAddr::V4(2)]).source_for(&[0x60]), None);
}

#[test]
fn a_buffer_takes_what_it_has_room_for() {
    let mut owned = Owned::new(vec![1, 2]);
    assert_eq!(owned.extend_within(1, &[3, 4]), 1);
    assert_eq!(owned.as_slice(), &[1, 2, 3]);
    assert_eq!(owned.extend_within(0, &[5]), 0);
    assert_eq!(owned.extend_within(8, &[5]), 1);
    assert_eq!(owned.as_slice(), &[1, 2, 3, 5]);
    let mut owned = Owned::with_capacity(5);
    for piece in [&[1u8, 2][..], &[3], &[], &[4, 5]] {
        assert_eq!(owned.extend_within_capacity(piece), piece.len(), "what was set aside is filled");
    }
    assert_eq!(owned.as_slice(), &[1, 2, 3, 4, 5]);
    let mut owned = Owned::with_capacity(4);
    assert_eq!(owned.extend_within_capacity(&[1, 2, 3]), 3);
    assert_eq!(owned.extend_within_capacity(&[4; 1 << 16]), 1, "it never grows");
    assert_eq!(owned.as_slice(), &[1, 2, 3, 4]);
    assert_eq!(owned.extend_within_capacity(&[9]), 0);
    let mut owned = Owned::new(Vec::with_capacity(10));
    let granted = owned.granted();
    assert!(granted >= 10, "what the vector can hold is set aside");
    assert_eq!(owned.extend_within_capacity(&[7; 10]), 10);
    assert_eq!(owned.extend_within_capacity(&[7; 1 << 16]), granted - 10);
    let mut owned = Owned::new(vec![1, 2].into_boxed_slice().into_vec());
    assert_eq!((owned.granted(), owned.extend_within_capacity(&[3])), (2, 0), "a full vector takes no more");
}

#[test]
fn a_resolver_is_taken_from_when_its_own_side_closed() {
    assert!(matches!(polled(true, Side::Pending, Side::Pending), Polled::Pending));
    assert!(matches!(polled(true, Side::Closed, Side::Pending), Polled::Take));
    assert!(matches!(polled(true, Side::Pending, Side::Closed), Polled::Take));
    assert!(matches!(
        polled(true, Side::Failed(IoError::other("gone")), Side::Pending),
        Polled::Failed(Failure::Local { .. })
    ));
    assert!(matches!(polled(false, Side::Pending, Side::Pending), Polled::Failed(Failure::Local { .. })));
    assert_eq!(negated_errno(-libc::EBUSY), Some(libc::EBUSY));
    assert_eq!(negated_errno(0), None);
    assert_eq!(answer(2, vec![1, 2, 3]), vec![1, 2]);
}
