use vpnhotspotd::protocol::{DaemonErrorReport, ErrorDetail, ErrorKind};
use vpnhotspotd::transport::{
    error_frame, event_frame, nonfatal_frame, parse_client_frame, reply_frame, ClientFrame, FRAME_CALL,
    FRAME_CANCEL, FRAME_ERROR, FRAME_EVENT, FRAME_NON_FATAL, FRAME_REPLY,
};

fn report(errno: Option<i32>) -> DaemonErrorReport {
    DaemonErrorReport {
        context: "context".to_owned(),
        message: "message".to_owned(),
        errno,
        kind: "kind".to_owned(),
        file: "file.rs".to_owned(),
        line: 1,
        column: 2,
        pid: 3,
        details: Vec::new(),
    }
}

#[test]
fn parse_call_frame_reads_id_and_payload() {
    let mut packet = Vec::new();
    packet.push(FRAME_CALL);
    packet.extend_from_slice(&123u64.to_be_bytes());
    packet.extend_from_slice(&[1, 2, 3]);
    let ClientFrame::Call { id, packet } = parse_client_frame(&packet).unwrap() else {
        panic!("expected call frame");
    };
    assert_eq!(id, 123);
    assert_eq!(packet, vec![1, 2, 3]);
}

#[test]
fn parse_cancel_frame_rejects_zero_id() {
    let mut packet = Vec::new();
    packet.push(FRAME_CANCEL);
    packet.extend_from_slice(&0u64.to_be_bytes());
    let error = parse_client_frame(&packet).unwrap_err();
    assert_eq!(error.kind, ErrorKind::InvalidData);
    assert_eq!(error.text(), "invalid daemon call id 0");
}

#[test]
fn reply_frame_encodes_id_and_payload() {
    let packet = reply_frame(9, vec![1, 2]);
    assert_eq!(packet[0], FRAME_REPLY);
    assert_eq!(u64::from_be_bytes(packet[1..9].try_into().unwrap()), 9);
    assert_eq!(&packet[9..], &[1, 2]);
}

#[test]
fn event_and_error_frames_encode_id() {
    let event = event_frame(10, vec![4, 5]);
    assert_eq!(event[0], FRAME_EVENT);
    assert_eq!(u64::from_be_bytes(event[1..9].try_into().unwrap()), 10);
    assert_eq!(&event[9..], &[4, 5]);
    let error = error_frame(11, report(Some(libc::EIO)));
    assert_eq!(error[0], FRAME_ERROR);
    assert_eq!(u64::from_be_bytes(error[1..9].try_into().unwrap()), 11);
}

#[test]
fn nonfatal_frame_allows_missing_id() {
    let packet = nonfatal_frame(None, report(None));
    assert_eq!(packet[0], FRAME_NON_FATAL);
    assert_eq!(u64::from_be_bytes(packet[1..9].try_into().unwrap()), 0);
}

#[test]
fn a_cancel_frame_carries_nothing_but_its_call() {
    let mut packet = vec![FRAME_CANCEL];
    packet.extend_from_slice(&7u64.to_be_bytes());
    assert_eq!(parse_client_frame(&packet).unwrap(), ClientFrame::Cancel { id: 7 });
    packet.push(1);
    let error = parse_client_frame(&packet).unwrap_err();
    assert_eq!(error.kind, ErrorKind::InvalidData);
    assert_eq!(error.text(), "cancel frame has payload");
}

#[test]
fn unreadable_frames_say_why() {
    let error = parse_client_frame(&[]).unwrap_err();
    assert_eq!((error.kind, error.text()), (ErrorKind::UnexpectedEof, "short frame"));
    let error = parse_client_frame(&[FRAME_CALL, 0, 0]).unwrap_err();
    assert_eq!((error.kind, error.text()), (ErrorKind::UnexpectedEof, "short frame"));
    let error = parse_client_frame(&[42]).unwrap_err();
    assert_eq!((error.kind, error.text()), (ErrorKind::InvalidData, "unknown client frame 42"));
}

#[test]
fn a_report_is_laid_out_field_by_field() {
    let mut told = report(None);
    told.context = "c\u{e9}".to_owned();
    told.details = vec![ErrorDetail { key: "k".to_owned(), value: "".to_owned() }];
    let frame = nonfatal_frame(Some(5), told);
    let mut expected = vec![3u8, 0, 0, 0, 0, 0, 0, 0, 5];
    for field in ["c\u{e9}", "message"] {
        expected.extend_from_slice(&(field.len() as u32).to_be_bytes());
        expected.extend_from_slice(field.as_bytes());
    }
    expected.extend_from_slice(&[0xff, 0xff, 0xff, 0xff]);
    for field in ["kind", "file.rs"] {
        expected.extend_from_slice(&(field.len() as u32).to_be_bytes());
        expected.extend_from_slice(field.as_bytes());
    }
    expected.extend_from_slice(&[0, 0, 0, 1, 0, 0, 0, 2, 0, 0, 0, 3, 0, 0, 0, 1]);
    expected.extend_from_slice(&[0, 0, 0, 1, b'k', 0, 0, 0, 0]);
    assert_eq!(frame, expected);
}
