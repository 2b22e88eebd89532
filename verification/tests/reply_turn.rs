use vpnhotspotd::protocol::{ErrorKind, IoError};
use vpnhotspotd::reply_bound::{classify_readiness, Drained, Readiness, Turned};
use vpnhotspotd::reply_turn::{advance, Action, Event, Stage};

fn error(kind: ErrorKind) -> IoError {
    IoError::new(kind, "failed".to_owned())
}

fn kernel(e: &IoError) -> bool {
    e.kind == ErrorKind::ConnectionRefused
}

/// Runs one turn on a socket that answers `attempt`, and says how often it was read and its errors asked for.
fn turn(
    granted: bool,
    attempt: Result<Result<u8, IoError>, ()>,
    backlog: &mut Vec<Drained>,
    reports: bool,
) -> (Result<u8, Turned>, usize, usize) {
    let (mut stage, mut attempt) = (Stage::Ready, Some(attempt));
    let (mut reads, mut asked) = (0, 0);
    loop {
        let event = match stage {
            Stage::Ready => Event::Ready(Ok(())),
            Stage::Slot => Event::Slot(granted),
            Stage::Attempt => {
                reads += 1;
                Event::Attempt(classify_readiness(attempt.take().unwrap(), kernel))
            }
            Stage::Errors => {
                asked += 1;
                Event::Errors(Ok(if backlog.is_empty() { Drained::Empty } else { backlog.remove(0) }))
            }
            Stage::Report => Event::Report(reports),
        };
        match advance(stage, event) {
            Action::Next(next) => stage = next,
            Action::Deliver(payload) => return (Ok(payload), reads, asked),
            Action::End(turned) => return (Err(turned), reads, asked),
        }
    }
}

#[test]
fn the_production_turn_orders_readiness_and_allocation() {
    let (turned, reads, asked) = turn(true, Ok(Ok(7)), &mut Vec::new(), false);
    assert_eq!((turned.unwrap(), reads, asked), (7, 1, 0));
    let (turned, reads, asked) = turn(true, Err(()), &mut Vec::new(), false);
    assert!(matches!(turned, Err(Turned::Released)), "a stale readiness is not a failure");
    assert_eq!((reads, asked), (1, 0));
    let (turned, _, _) = turn(true, Ok(Err(error(ErrorKind::BrokenPipe))), &mut Vec::new(), false);
    assert!(matches!(turned, Err(Turned::Failed(_))));
}

#[test]
fn the_production_turn_takes_one_error_per_turn() {
    let mut backlog = vec![Drained::Local; 50];
    backlog.extend(vec![Drained::Neither; 50]);
    backlog.push(Drained::Remote);
    let errored = || Ok(Err(error(ErrorKind::ConnectionRefused)));
    for _ in 0..100 {
        let (turned, _, asked) = turn(true, errored(), &mut backlog, true);
        assert!(matches!(turned, Err(Turned::Released)));
        assert_eq!(asked, 1);
    }
    let (turned, _, asked) = turn(true, errored(), &mut backlog, true);
    assert!(matches!(turned, Err(Turned::Reported)));
    assert_eq!(asked, 1);
    backlog.push(Drained::Remote);
    let (turned, _, _) = turn(true, errored(), &mut backlog, false);
    assert!(matches!(turned, Err(Turned::Released)), "an error nobody is told of gives its slot back");
}

#[test]
fn owner_closure_prevents_a_ready_socket_read() {
    let (turned, reads, asked) = turn(false, Ok(Ok(17)), &mut Vec::new(), false);
    assert!(matches!(turned, Err(Turned::Closed)));
    assert_eq!((reads, asked), (0, 0));
}

#[test]
fn cancellation_releases_a_worker_waiting_for_capacity() {
    assert!(matches!(
        advance::<u8>(Stage::Slot, Event::Cancelled),
        Action::End(Turned::Cancelled)
    ));
    assert!(matches!(
        advance::<u8>(Stage::Ready, Event::Cancelled),
        Action::End(Turned::Cancelled)
    ));
    assert!(matches!(
        advance::<u8>(Stage::Ready, Event::Ready(Err(error(ErrorKind::Other)))),
        Action::End(Turned::Failed(_))
    ));
    assert!(matches!(
        advance::<u8>(Stage::Errors, Event::Errors(Err(error(ErrorKind::Other)))),
        Action::End(Turned::Failed(_))
    ));
    assert!(matches!(
        advance::<u8>(Stage::Attempt, Event::Attempt(Readiness::Errored)),
        Action::Next(Stage::Errors)
    ));
}
