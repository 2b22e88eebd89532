use vpnhotspotd::protocol::{ErrorKind, IoError, Site};
use vpnhotspotd::tun_check::{Event, Stage, Step, TunCheck};

fn site() -> Site {
    Site {
        file: "src/app.rs".to_owned(),
        line: 1,
        column: 2,
        pid: 3,
    }
}

fn field(name: &str) -> [u8; 16] {
    let mut field = [0; 16];
    field[..name.len()].copy_from_slice(name.as_bytes());
    field
}

/// The answers of a tun as it was declared.
fn answer(stage: Stage) -> Event {
    match stage {
        Stage::Descriptors => Event::Descriptors(1),
        Stage::Flags => Event::Flags(Ok(libc::O_NONBLOCK | libc::O_RDWR)),
        Stage::Tun => Event::Tun(Ok((field("tun7"), 0x1001))),
        Stage::Mtu => Event::Mtu(Ok(1400)),
        Stage::Address => Event::Address(Ok((2, [192, 0, 2, 1]))),
        Stage::Over => unreachable!("nothing is asked any more"),
    }
}

/// What comes of one answer in the place of a declared tun's.
fn instead(stage: Stage, other: Event) -> String {
    let mut check = TunCheck::new("tun7", 1400);
    while check.stage() != stage {
        let asked = check.stage();
        assert!(matches!(check.advance(answer(asked), &site()), Step::Ask(_)));
    }
    match check.advance(other, &site()) {
        Step::Refused(error) => {
            assert_eq!(check.stage(), Stage::Over);
            error.text().to_owned()
        }
        _ => unreachable!("another answer is refused"),
    }
}

fn failure() -> IoError {
    IoError::new(ErrorKind::Other, "no such device".to_owned())
}

#[test]
fn the_declared_tun_is_taken_with_its_address() {
    let mut check = TunCheck::new("tun7", 1400);
    for next in [Stage::Flags, Stage::Tun, Stage::Mtu, Stage::Address] {
        let asked = check.stage();
        assert!(matches!(check.advance(answer(asked), &site()), Step::Ask(stage) if stage == next));
    }
    assert!(matches!(
        check.advance(answer(Stage::Address), &site()),
        Step::Verified(0xc000_0201)
    ));
    assert_eq!(check.stage(), Stage::Over);
}

#[test]
fn each_question_has_its_own_refusal() {
    assert_eq!(
        instead(Stage::Descriptors, Event::Descriptors(0)),
        "shizuku.handoff.descriptors: no descriptor was transferred"
    );
    assert_eq!(
        instead(Stage::Descriptors, Event::Descriptors(2)),
        "shizuku.handoff.descriptors: 2 descriptors were transferred"
    );
    assert_eq!(
        instead(Stage::Flags, Event::Flags(Ok(libc::O_RDWR))),
        "shizuku.handoff.verify_tun: transferred descriptor is blocking"
    );
    assert_eq!(
        instead(Stage::Tun, Event::Tun(Ok((field("tun8"), 0x1001)))),
        "shizuku.handoff.verify_tun: transferred TUN is tun8 but tun7 was expected"
    );
    assert_eq!(
        instead(Stage::Tun, Event::Tun(Ok((field("tun7"), 0x1002)))),
        "shizuku.handoff.verify_tun: transferred TUN has flags 0x1002"
    );
    assert_eq!(
        instead(Stage::Mtu, Event::Mtu(Ok(1500))),
        "shizuku.handoff.verify_tun: tun7 has MTU 1500 but 1400 was declared"
    );
    assert_eq!(
        instead(Stage::Mtu, Event::Mtu(Ok(-1))),
        "shizuku.handoff.interface_mtu: negative MTU: out of range integral type conversion attempted"
    );
    assert_eq!(
        instead(Stage::Address, Event::Address(Ok((10, [0; 4])))),
        "shizuku.handoff.interface_address: interface address is family 10"
    );
}

#[test]
fn a_question_that_cannot_be_answered_is_named() {
    assert_eq!(
        instead(Stage::Flags, Event::Flags(Err(failure()))),
        "shizuku.handoff.descriptor_flags: no such device"
    );
    assert_eq!(
        instead(Stage::Tun, Event::Tun(Err(failure()))),
        "shizuku.handoff.tungetiff: no such device"
    );
    assert_eq!(
        instead(Stage::Mtu, Event::Mtu(Err(failure()))),
        "shizuku.handoff.interface_mtu: no such device"
    );
    assert_eq!(
        instead(Stage::Address, Event::Address(Err(failure()))),
        "shizuku.handoff.interface_address: no such device"
    );
}
