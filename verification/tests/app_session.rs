use vpnhotspotd::addr::IpAddr;
use vpnhotspotd::app_config::{self, Configuring, Ended, Received, Rejected, Request, Requested, Serving};
use vpnhotspotd::app_session::{
    self, concluded, dataplane, Action, Conversation, Event, Served, Session, Stage, Start, Terminal,
};
use vpnhotspotd::protocol::{ErrorKind, IoError, Site};
use vpnhotspotd::session_config::ShizukuSessionConfig;
use vpnhotspotd::tasks::{completed, joined, reaped, Tasks, Watched};

fn site() -> Site {
    Site {
        file: "src/app.rs".to_owned(),
        line: 1,
        column: 2,
        pid: 3,
    }
}

fn config(generation: u64) -> ShizukuSessionConfig {
    ShizukuSessionConfig {
        upstream_generation: generation,
        admitting: true,
        upstream_network: Some(1),
        upstream_interface_index: Some(2),
        virtual_addresses: Vec::new(),
        gateway_addresses: Vec::new(),
    }
}

fn start() -> Start {
    Start {
        call_id: 9,
        interface_name: "tun7".to_owned(),
        mtu: 1400,
        gateway_addresses: vec![IpAddr::V6(1), IpAddr::V4(0xc000_0201)],
        virtual_addresses: Vec::new(),
    }
}

fn other(text: &str) -> IoError {
    IoError::other(text)
}

#[test]
fn a_config_is_applied_only_as_a_successor() {
    let mut serving = Serving::new();
    let request = |generation| {
        Ok(Request::Config {
            call_id: 4,
            config: config(generation),
        })
    };
    match serving.requested(request(2), &site()) {
        Requested::Resolve { call_id: 4, config } => {
            let applied = serving.publish(config);
            assert!(applied.admitting);
            assert_eq!(applied.upstream_generation, 2);
        }
        _ => unreachable!("a first config is resolved"),
    }
    match serving.requested(request(1), &site()) {
        Requested::End(Ok(Ended::Refused { call_id: 4, report, .. })) => {
            assert_eq!(report.context, "shizuku.control.config");
            assert!(report.message.starts_with("config call 4 is not a valid successor: "));
        }
        _ => unreachable!("a generation that falls is refused"),
    }
    assert!(matches!(
        serving.requested(Ok(Request::CancelSession), &site()),
        Requested::End(Ok(Ended::Silent))
    ));
    assert!(matches!(serving.requested(Ok(Request::CancelStale), &site()), Requested::Receive));
    let rejected = |call_id| {
        Err(Rejected {
            call_id,
            error: IoError::new(ErrorKind::InvalidData, "no such call".to_owned()),
        })
    };
    assert!(matches!(
        serving.requested(rejected(Some(5)), &site()),
        Requested::End(Ok(Ended::Refused { call_id: 5, report, .. }))
            if report.details[0].key == "call_id" && report.details[0].value == "5"
    ));
    assert!(matches!(serving.requested(rejected(None), &site()), Requested::End(Err(_))));
}

#[test]
fn each_step_of_a_config_has_its_own_refusal() {
    let serving = Serving::new();
    assert!(matches!(serving.received(Ok(vec![1]), &site()), Received::Packet(packet) if packet == [1]));
    assert!(matches!(
        serving.received(Err(IoError::new(ErrorKind::UnexpectedEof, "eof".to_owned())), &site()),
        Received::End(Ok(Ended::Silent))
    ));
    assert!(matches!(serving.received(Err(other("gone")), &site()), Received::End(Err(_))));
    assert_eq!(serving.decoded(Ok(7u8), &site()).unwrap(), 7);
    assert_eq!(
        serving.decoded::<u8>(Err("truncated".to_owned()), &site()).unwrap_err().text(),
        "shizuku.control.parse_frame: truncated"
    );
    assert_eq!(serving.resolved(4, Ok(7u8), &site()).unwrap(), 7);
    match serving.resolved::<u8>(4, Err("no network".to_owned()), &site()) {
        Err(Ended::Refused { call_id: 4, report, .. }) => {
            assert_eq!(report.message, "config call 4 has no usable egress: no network");
            assert_eq!(report.context, "shizuku.control.config");
        }
        _ => unreachable!("an egress that fails refuses the call"),
    }
    assert!(serving.sent(4, true, &site()).is_ok());
    assert!(matches!(serving.sent(4, false, &site()), Err(Ended::Refused { call_id: 4, .. })));
    assert!(serving.applied(true, &site()).is_ok());
    assert!(serving.applied(false, &site()).is_err());
    assert!(serving.acknowledged(true, &site()).is_ok());
    assert_eq!(
        serving.acknowledged(false, &site()).unwrap_err().kind,
        ErrorKind::BrokenPipe
    );
}

#[test]
fn the_first_failure_answers_the_call_that_started_the_session() {
    let mut session = Session::new();
    assert_eq!(session.started(Ok(start())).unwrap().call_id, 9);
    let tasks = vec![("tun ingress", Err(other("ingress"))), ("tun egress", Ok(()))];
    let (terminal, told) = session.finish(&Err(other("first")), &tasks, &site());
    match terminal {
        Terminal::Start { call_id: 9, report: Some(report) } => {
            assert_eq!(report.context, "shizuku.app_session");
            assert_eq!(report.message, "first");
        }
        _ => unreachable!("the start call is answered"),
    }
    assert_eq!(told.len(), 1);
    assert_eq!(told[0].message, "ingress");
}

#[test]
fn a_refused_config_is_answered_in_the_sessions_place() {
    let mut session = Session::new();
    session.started(Ok(start())).unwrap();
    let serving = Serving::new();
    let ended = serving.sent(4, false, &site()).unwrap_err();
    assert!(session.served(Served::Configured(Ok(ended))).is_err());
    let tasks = vec![("tun ingress", Err(other("ingress")))];
    let (terminal, told) = session.finish(&Err(other("refused")), &tasks, &site());
    assert!(matches!(terminal, Terminal::Refused { call_id: 4, .. }));
    assert_eq!(told.len(), 1, "the refusal is told once, by its own call");
    assert_eq!(told[0].message, "ingress");

    let mut silent = Session::new();
    silent.started(Ok(start())).unwrap();
    assert!(silent.served(Served::Configured(Ok(Ended::Silent))).is_ok());
    let (terminal, told) = silent.finish(&Ok(()), &Vec::new(), &site());
    assert!(matches!(terminal, Terminal::Nobody));
    assert!(told.is_empty());
}

#[test]
fn a_start_that_is_refused_or_misdeclared_ends_the_session() {
    let mut session = Session::new();
    let refused = session.started(Err(Rejected {
        call_id: Some(3),
        error: other("no start"),
    }));
    assert!(refused.is_err());
    let (terminal, _) = session.finish(&Ok(()), &Vec::new(), &site());
    assert!(matches!(terminal, Terminal::Start { call_id: 3, report: None }));
    assert!(Session::gateway(&start(), 0xc000_0201, &site()).is_ok());
    let wrong = Session::gateway(&start(), 0xc000_0202, &site()).unwrap_err();
    assert_eq!(
        wrong.text(),
        "shizuku.control.start_session: tun7 has address 192.0.2.2 but 192.0.2.1 was declared"
    );
    assert!(Session::acknowledged(true, &site()).is_ok());
    assert!(Session::acknowledged(false, &site()).is_err());
}

#[test]
fn every_tasks_failure_is_in_the_sessions_result() {
    assert!(dataplane(vec![("a", Ok(())), ("b", Ok(()))]).is_ok());
    let failed = dataplane(vec![("a", Err(other("one"))), ("b", Ok(())), ("c", Err(other("two")))]);
    assert_eq!(failed.unwrap_err().text(), "one; two");
    let concluded = concluded(Err(other("a")), Err(other("b")), Ok(()), Err(other("c")));
    assert_eq!(concluded.unwrap_err().text(), "a; b; c");
}

#[test]
fn a_task_that_ends_is_named_and_its_siblings_stay() {
    let mut tasks: Tasks<u8> = Tasks::new();
    tasks.enroll("tun ingress", 1);
    tasks.enroll("tun egress", 2);
    assert!(matches!(tasks.watched(None), Watched::Cancelled));
    *tasks.handle_mut(1) = 3;
    match tasks.watched(Some((0, Ok(Err(other("the TUN read failed")))))) {
        Watched::Finished { name: "tun ingress", result } => {
            assert_eq!(result.unwrap_err().text(), "the TUN read failed");
        }
        _ => unreachable!("the ended task is seen"),
    }
    assert_eq!(tasks.len(), 1);
    assert_eq!(tasks.take(), vec![("tun egress", 3)]);
    assert_eq!(tasks.len(), 0);
    assert!(joined("tun egress", Ok(Ok(()))).is_ok());
    assert!(joined("tun egress", Err("panicked".to_owned())).unwrap_err().text().contains("tun egress"));
    assert!(completed("drain", Ok(())).is_ok());
    assert!(completed("drain", Err("panicked".to_owned())).unwrap_err().text().contains("drain"));
    assert!(reaped("drain", vec![Ok(()), Ok(())]).is_ok());
    assert!(reaped("drain", vec![Ok(()), Err("panicked".to_owned())]).is_err());
}

fn resolving(call_id: u64, generation: u64) -> Configuring {
    let mut configuring = Configuring::new();
    ask(&mut configuring, call_id, generation);
    configuring
}

fn ask(configuring: &mut Configuring, call_id: u64, generation: u64) {
    assert!(matches!(
        configuring.advance(app_config::Event::Packet(Ok(vec![1])), &site()),
        app_config::Action::Read(packet) if packet == [1]
    ));
    let request = Request::Config { call_id, config: config(generation) };
    assert!(matches!(
        configuring.advance(app_config::Event::Request(Ok(Ok(request))), &site()),
        app_config::Action::Resolve
    ));
    assert_eq!(configuring.config().unwrap().upstream_generation, generation);
    assert_eq!(configuring.stage(), app_config::Stage::Egress { call_id });
}

#[test]
fn a_config_is_acknowledged_once_the_last_one_is_gone() {
    let mut configuring = resolving(4, 2);
    for (call_id, generation) in [(4, 2), (5, 3)] {
        if call_id == 5 {
            ask(&mut configuring, call_id, generation);
        }
        assert!(matches!(
            configuring.advance(app_config::Event::Egress(Ok(())), &site()),
            app_config::Action::Publish(applied) if applied.upstream_generation == generation && applied.admitting
        ));
        assert!(configuring.config().is_none());
        assert!(matches!(
            configuring.advance(app_config::Event::Sent(true), &site()),
            app_config::Action::AwaitRetired
        ));
        assert!(matches!(
            configuring.advance(app_config::Event::Applied(true), &site()),
            app_config::Action::Acknowledge { call_id: acknowledged } if acknowledged == call_id
        ));
        assert!(matches!(
            configuring.advance(app_config::Event::Acknowledged(true), &site()),
            app_config::Action::Receive
        ));
    }
    configuring.advance(app_config::Event::Packet(Ok(Vec::new())), &site());
    let falls = Request::Config { call_id: 6, config: config(1) };
    assert!(matches!(
        configuring.advance(app_config::Event::Request(Ok(Ok(falls))), &site()),
        app_config::Action::End(Ok(Ended::Refused { call_id: 6, .. }))
    ));
    assert_eq!(configuring.stage(), app_config::Stage::Over);
}

#[test]
fn configuring_ends_where_a_step_fails() {
    let mut configuring = resolving(4, 2);
    assert!(matches!(
        configuring.advance(app_config::Event::Egress(Err("no network".to_owned())), &site()),
        app_config::Action::End(Ok(Ended::Refused { call_id: 4, .. }))
    ));
    let mut configuring = resolving(4, 2);
    configuring.advance(app_config::Event::Egress(Ok(())), &site());
    assert!(matches!(
        configuring.advance(app_config::Event::Sent(false), &site()),
        app_config::Action::End(Ok(Ended::Refused { call_id: 4, .. }))
    ));
    let mut configuring = resolving(4, 2);
    configuring.advance(app_config::Event::Egress(Ok(())), &site());
    configuring.advance(app_config::Event::Sent(true), &site());
    assert!(matches!(
        configuring.advance(app_config::Event::Applied(false), &site()),
        app_config::Action::End(Err(error))
            if error.text() == "shizuku.control.config: tun ingress dropped a config it accepted"
    ));
    let mut configuring = Configuring::new();
    configuring.advance(app_config::Event::Packet(Ok(Vec::new())), &site());
    assert!(matches!(
        configuring.advance(app_config::Event::Request(Err("truncated".to_owned())), &site()),
        app_config::Action::End(Err(error)) if error.text() == "shizuku.control.parse_frame: truncated"
    ));
    let mut configuring = Configuring::new();
    let eof = IoError::new(ErrorKind::UnexpectedEof, "eof".to_owned());
    assert!(matches!(
        configuring.advance(app_config::Event::Packet(Err(eof)), &site()),
        app_config::Action::End(Ok(Ended::Silent))
    ));
}

fn begun() -> Conversation {
    let mut conversation = Conversation::new();
    assert!(matches!(
        conversation.advance(Event::Start(Ok(Ok(start()))), &site()),
        Action::InstallReporter
    ));
    assert!(matches!(conversation.advance(Event::Reporter(Ok(())), &site()), Action::VerifyTun));
    assert!(matches!(conversation.advance(Event::Tun(Ok(0xc000_0201)), &site()), Action::Register));
    assert!(matches!(conversation.advance(Event::Register(Ok(())), &site()), Action::Measure));
    assert!(matches!(conversation.advance(Event::Budget(Ok(())), &site()), Action::Prepare));
    assert!(matches!(conversation.advance(Event::Prepare(Ok(())), &site()), Action::Begin));
    assert!(matches!(
        conversation.advance(Event::Begun, &site()),
        Action::Acknowledge { call_id: 9 }
    ));
    conversation
}

#[test]
fn a_session_is_acknowledged_once_its_dataplane_has_begun() {
    let mut conversation = begun();
    assert_eq!(conversation.start().unwrap().interface_name, "tun7");
    assert!(matches!(conversation.advance(Event::Acknowledged(true), &site()), Action::Serve));
    let silent = Event::Served(Served::Configured(Ok(Ended::Silent)));
    assert!(matches!(conversation.advance(silent, &site()), Action::End(Ok(()))));
    assert_eq!(conversation.stage(), Stage::Over);
    let (terminal, told) = conversation.into_session().finish(&Ok(()), &Vec::new(), &site());
    assert!(matches!(terminal, Terminal::Nobody));
    assert!(told.is_empty());

    let mut stopped = begun();
    assert!(matches!(
        stopped.advance(Event::Acknowledged(false), &site()),
        Action::End(Err(error)) if error.kind == ErrorKind::BrokenPipe
    ));
}

#[test]
fn a_session_ends_where_a_step_of_its_start_fails() {
    let mut unread = Conversation::new();
    assert!(matches!(
        unread.advance(app_session::Event::Start(Err("truncated".to_owned())), &site()),
        Action::End(Err(error)) if error.text() == "shizuku.control.parse_frame: truncated"
    ));
    let (terminal, _) = unread.into_session().finish(&Ok(()), &Vec::new(), &site());
    assert!(matches!(terminal, Terminal::Nobody), "no call can be answered");

    let mut misdeclared = Conversation::new();
    misdeclared.advance(Event::Start(Ok(Ok(start()))), &site());
    misdeclared.advance(Event::Reporter(Ok(())), &site());
    assert!(matches!(
        misdeclared.advance(Event::Tun(Ok(0xc000_0202)), &site()),
        Action::End(Err(error)) if error.kind == ErrorKind::InvalidInput
    ));

    let mut unmeasured = Conversation::new();
    unmeasured.advance(Event::Start(Ok(Ok(start()))), &site());
    unmeasured.advance(Event::Reporter(Ok(())), &site());
    unmeasured.advance(Event::Tun(Ok(0xc000_0201)), &site());
    unmeasured.advance(Event::Register(Ok(())), &site());
    assert!(matches!(
        unmeasured.advance(Event::Budget(Err(other("no limit"))), &site()),
        Action::End(Err(error)) if error.text() == "shizuku.control.budget: no limit"
    ));
}
