use vpnhotspotd::protocol::{reported_io_error_report, ErrorKind, IoError, IoErrorReportExt, Site};
use vpnhotspotd::tasks::combine;

fn site() -> Site {
    Site {
        file: "src/app.rs".to_owned(),
        line: 1,
        column: 2,
        pid: 3,
    }
}

fn raw_os_error(errno: i32) -> IoError {
    IoError {
        errno: Some(errno),
        ..IoError::other("Too many open files")
    }
}

#[test]
fn combining_keeps_every_failure() {
    assert!(combine(Ok(()), Ok(())).is_ok());
    assert_eq!(
        combine(Ok(()), Err(IoError::other("egress")))
            .unwrap_err()
            .text(),
        "egress"
    );
    assert_eq!(
        combine(Err(IoError::other("ingress")), Ok(()))
            .unwrap_err()
            .text(),
        "ingress"
    );
    let both = combine(
        Err(IoError::new(ErrorKind::InvalidData, "ingress".to_owned())),
        Err(IoError::other("the writer stopped")),
    )
    .unwrap_err();
    assert_eq!(both.kind, ErrorKind::InvalidData);
    assert_eq!(both.text(), "ingress; the writer stopped");

    let described = combine(
        Err(raw_os_error(libc::ENFILE).with_report_context("ingress", &site())),
        Err(raw_os_error(libc::EMFILE).with_report_context("writer", &site())),
    )
    .unwrap_err();
    assert!(
        reported_io_error_report(&described).is_none(),
        "a folded message is not a structured report"
    );
}
