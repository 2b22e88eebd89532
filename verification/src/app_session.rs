//! A session of the app from its start to its end, and who is told how it ended.
use vstd::prelude::*;

use crate::addr::IpAddr;
use crate::app_config::{Ended, Rejected, Serving};
use crate::protocol::{
    contextual, daemon_io_error_report, plain_error, reports_error, DaemonErrorReport, ErrorKind, ErrorState,
    IoError, IoErrorReportExt, IoResultReportExt, ReportState, Site,
};
use crate::tasks::{all_combined, combine, combined, outcome, Watched};
use crate::text::{dotted, push_dotted};

verus! {

/// Whose call the end of the session answers.
#[allow(inconsistent_fields)]
#[derive(Debug)]
pub enum Terminal {
    /// Nobody's.
    Nobody,
    /// The call that started the session, with the failure it ends with.
    Start { call_id: u64, report: Option<DaemonErrorReport> },
    /// A call that was refused.
    Refused { call_id: u64, report: DaemonErrorReport },
}

/// Whose call the end of the session answers.
#[allow(inconsistent_fields)]
#[verifier::ext_equal]
pub enum TerminalState {
    Nobody,
    Start { call_id: u64, report: Option<ReportState> },
    Refused { call_id: u64, report: ReportState },
}

impl View for Terminal {
    type V = TerminalState;

    open spec fn view(&self) -> TerminalState {
        match self {
            Terminal::Nobody => TerminalState::Nobody,
            Terminal::Start { call_id, report } => TerminalState::Start {
                call_id: *call_id,
                report: match report {
                    Some(report) => Some(report@),
                    None => None,
                },
            },
            Terminal::Refused { call_id, report } => TerminalState::Refused {
                call_id: *call_id,
                report: report@,
            },
        }
    }
}

/// What becomes of a failure's report: the call that started the session ends with the first one, and any other
/// comes back to be told by itself.
pub open spec fn claimed(terminal: TerminalState, report: ReportState) -> (
    TerminalState,
    Option<ReportState>,
) {
    match terminal {
        TerminalState::Start { call_id, report: None } => (
            TerminalState::Start { call_id, report: Some(report) },
            None,
        ),
        _ => (terminal, Some(report)),
    }
}

/// What a report that may be there says.
pub open spec fn report_view(report: Option<DaemonErrorReport>) -> Option<ReportState> {
    match report {
        Some(report) => Some(report@),
        None => None,
    }
}

impl Terminal {
    /// Takes a failure's report, or gives it back.
    pub fn claim(&mut self, report: DaemonErrorReport) -> (r: Option<DaemonErrorReport>)
        ensures
            (final(self)@, report_view(r)) == claimed(old(self)@, report@),
    {
        if let Terminal::Start { call_id, report: None } = self {
            let call_id: u64 = *call_id;
            *self = Terminal::Start { call_id, report: Some(report) };
            return None;
        }
        Some(report)
    }
}

/// Whether a result was routed: a success leaves all as it was, a failure's report is claimed.
pub open spec fn routed(
    before: TerminalState,
    after: TerminalState,
    context: Seq<char>,
    result: Result<(), ErrorState>,
    site: Site,
    told: Option<ReportState>,
) -> bool {
    match result {
        Ok(_) => after == before && told is None,
        Err(error) => exists|report: ReportState|
            #[trigger] reports_error(report, context, error, site, Seq::empty()) && (after, told) == claimed(
                before,
                report,
            ),
    }
}

/// Routes a result. What comes back is to be told by itself.
pub fn route(
    terminal: &mut Terminal,
    context: &str,
    result: &Result<(), IoError>,
    site: &Site,
) -> (r: Option<DaemonErrorReport>)
    ensures
        routed(old(terminal)@, final(terminal)@, context@, outcome(*result), *site, report_view(r)),
{
    let error = match result {
        Ok(_) => return None,
        Err(error) => error,
    };
    let report = daemon_io_error_report(context, error, site);
    assert(reports_error(report@, context@, error@, *site, Seq::empty()));
    terminal.claim(report)
}

/// What starts a session.
#[derive(Debug)]
pub struct Start {
    pub call_id: u64,
    pub interface_name: String,
    pub mtu: u32,
    pub gateway_addresses: Vec<IpAddr>,
    pub virtual_addresses: Vec<IpAddr>,
}

/// The first IPv4 address from the `i`th on.
pub open spec fn first_ipv4(addresses: Seq<IpAddr>, i: int) -> Option<u32>
    decreases addresses.len() - i,
{
    if i < 0 || i >= addresses.len() {
        None
    } else {
        match addresses[i] {
            IpAddr::V4(address) => Some(address),
            IpAddr::V6(_) => first_ipv4(addresses, i + 1),
        }
    }
}

/// Where a failure to start happens.
pub open spec fn start_context() -> Seq<char> {
    "shizuku.control.start_session"@
}

/// That the tun has another address than was declared.
pub open spec fn wrong_gateway(interface_name: Seq<char>, gateway: u32, declared: u32) -> ErrorState {
    plain_error(
        ErrorKind::InvalidInput,
        interface_name + " has address "@ + dotted(gateway) + " but "@ + dotted(declared) + " was declared"@,
    )
}

/// How serving a session ended.
pub enum Served {
    /// A task of the dataplane ended, or all were cancelled.
    Dataplane(Watched),
    /// Configuring ended.
    Configured(Result<Ended, IoError>),
}

/// A session. It ends by answering a call.
pub struct Session {
    terminal: Terminal,
}

impl Session {
    /// Whose call the end of the session answers.
    pub closed spec fn spec_terminal(&self) -> TerminalState {
        self.terminal@
    }

    /// A session that nobody waits for yet.
    pub fn new() -> (r: Self)
        ensures
            r.spec_terminal() is Nobody,
    {
        Session { terminal: Terminal::Nobody }
    }

    /// Takes what starts the session. From here on its end answers the call that started it; so it does where
    /// that call asked for what it may not.
    pub fn started(&mut self, start: Result<Start, Rejected>) -> (r: Result<Start, IoError>)
        ensures
            match start {
                Ok(start) => r == Ok::<Start, IoError>(start) && final(self).spec_terminal() == (
                TerminalState::Start { call_id: start.call_id, report: None }),
                Err(rejected) => r == Err::<Start, IoError>(rejected.error) && final(self).spec_terminal()
                    == match rejected.call_id {
                    Some(call_id) => TerminalState::Start { call_id, report: None },
                    None => old(self).spec_terminal(),
                },
            },
    {
        match start {
            Ok(start) => {
                self.terminal = Terminal::Start { call_id: start.call_id, report: None };
                Ok(start)
            },
            Err(Rejected { call_id, error }) => {
                if let Some(call_id) = call_id {
                    self.terminal = Terminal::Start { call_id, report: None };
                }
                Err(error)
            },
        }
    }

    /// Holds the tun's address against the declared ones: the first IPv4 one, where there is one, is to be it.
    pub fn gateway(start: &Start, gateway: u32, site: &Site) -> (r: Result<(), IoError>)
        ensures
            match first_ipv4(start.gateway_addresses@, 0) {
                Some(declared) => if declared == gateway {
                    r is Ok
                } else {
                    r is Err && contextual(
                        wrong_gateway(start.interface_name@, gateway, declared),
                        r->Err_0@,
                        start_context(),
                        *site,
                        Seq::empty(),
                    )
                },
                None => r is Ok,
            },
    {
        let mut i: usize = 0;
        while i < start.gateway_addresses.len()
            invariant
                i <= start.gateway_addresses@.len(),
                first_ipv4(start.gateway_addresses@, 0) == first_ipv4(start.gateway_addresses@, i as int),
            decreases start.gateway_addresses@.len() - i,
        {
            if let IpAddr::V4(declared) = start.gateway_addresses[i] {
                if declared == gateway {
                    return Ok(());
                }
                let mut message = start.interface_name.clone();
                message.append(" has address ");
                push_dotted(&mut message, gateway);
                message.append(" but ");
                push_dotted(&mut message, declared);
                message.append(" was declared");
                let error = IoError::new(ErrorKind::InvalidInput, message);
                return Err(error.with_report_context("shizuku.control.start_session", site));
            }
            i += 1;
        }
        Ok(())
    }

    /// Takes whether the call that started the session could be acknowledged.
    pub fn acknowledged(sent: bool, site: &Site) -> (r: Result<(), IoError>)
        ensures
            r is Ok == sent,
            r matches Err(error) ==> contextual(
                plain_error(
                    ErrorKind::BrokenPipe,
                    "the control writer stopped before the session started"@,
                ),
                error@,
                start_context(),
                *site,
                Seq::empty(),
            ),
    {
        if sent {
            return Ok(());
        }
        let error = IoError::new(
            ErrorKind::BrokenPipe,
            "the control writer stopped before the session started".to_owned(),
        );
        Err(error.with_report_context("shizuku.control.start_session", site))
    }

    /// Takes how serving ended. Where the app is gone nobody is answered any more; where a call was refused it is
    /// that call.
    pub fn served(&mut self, served: Served) -> (r: Result<(), IoError>)
        ensures
            match served {
                Served::Dataplane(Watched::Cancelled) => r is Ok && final(self).spec_terminal()
                    == old(self).spec_terminal(),
                Served::Dataplane(Watched::Finished { result, .. }) => r == result && final(
                    self).spec_terminal() == old(self).spec_terminal(),
                Served::Configured(Ok(Ended::Silent)) => r is Ok && final(self).spec_terminal() is Nobody,
                Served::Configured(Ok(Ended::Refused { call_id, report, error })) => r == Err::<(), IoError>(
                    error,
                ) && final(self).spec_terminal() == (TerminalState::Refused { call_id, report: report@ }),
                Served::Configured(Err(error)) => r == Err::<(), IoError>(error) && final(
                    self).spec_terminal() == old(self).spec_terminal(),
            },
    {
        match served {
            Served::Dataplane(Watched::Cancelled) => Ok(()),
            Served::Dataplane(Watched::Finished { name: _, result }) => result,
            Served::Configured(Ok(Ended::Silent)) => {
                self.terminal = Terminal::Nobody;
                Ok(())
            },
            Served::Configured(Ok(Ended::Refused { call_id, report, error })) => {
                self.terminal = Terminal::Refused { call_id, report };
                Err(error)
            },
            Served::Configured(Err(e)) => Err(e),
        }
    }

    /// Routes how the session and its tasks ended, in this order. What the session itself ended with is not
    /// routed where a call was refused for it. Gives whose call is answered, and what is to be told besides.
    pub fn finish(
        self,
        result: &Result<(), IoError>,
        tasks: &Vec<(&'static str, Result<(), IoError>)>,
        site: &Site,
    ) -> (r: (Terminal, Vec<DaemonErrorReport>))
        ensures
            exists|mid: TerminalState, first: Option<ReportState>|
                {
                    &&& #[trigger] routed_session(
                        self.spec_terminal(),
                        mid,
                        outcome(*result),
                        *site,
                        first,
                    )
                    &&& routed_tasks(
                        mid,
                        r.0@,
                        task_outcomes(tasks@),
                        *site,
                        start_with(first),
                        report_views(r.1@),
                    )
                },
    {
        let mut terminal = self.terminal;
        let mut told: Vec<DaemonErrorReport> = Vec::new();
        let refused = match &terminal {
            Terminal::Refused { .. } => true,
            _ => false,
        };
        let first = if refused {
            None
        } else {
            route(&mut terminal, "shizuku.app_session", result, site)
        };
        let ghost mid = terminal@;
        let ghost said = report_view(first);
        proof {
            assert(routed_session(self.spec_terminal(), mid, outcome(*result), *site, said));
        }
        if let Some(report) = first {
            told.push(report);
        }
        assert(report_views(told@) =~= start_with(said));
        let ghost all = task_outcomes(tasks@);
        let ghost start = start_with(said);
        assert(all.take(0) =~= Seq::empty());
        proof {
            let none = Seq::<Option<ReportState>>::empty();
            assert(start + came_back(none, 0) =~= start);
            assert(routing(all.take(0), *site, start, start, seq![mid], none));
        }
        let mut i: usize = 0;
        while i < tasks.len()
            invariant
                i <= tasks@.len(),
                all == task_outcomes(tasks@),
                routed_tasks(mid, terminal@, all.take(i as int), *site, start, report_views(told@)),
            decreases tasks@.len() - i,
        {
            let (name, task) = &tasks[i];
            let ghost was = terminal@;
            let ghost told_before = report_views(told@);
            let more = route(&mut terminal, name, task, site);
            let ghost added = report_view(more);
            if let Some(report) = more {
                told.push(report);
            }
            i += 1;
            proof {
                let now = all.take(i as int);
                assert(now.drop_last() =~= all.take(i as int - 1));
                assert(now.last() == (name@, outcome(*task)));
                assert(report_views(told@) =~= told_before + start_with(added));
                assert(routed_tasks(mid, was, now.drop_last(), *site, start, told_before));
                assert(routed(was, terminal@, now.last().0, now.last().1, *site, added));
                lemma_one_more(mid, was, terminal@, now, *site, start, told_before, added);
            }
        }
        proof {
            assert(all.take(i as int) =~= all);
        }
        (terminal, told)
    }
}

/// What a conversation waits for.
#[derive(Debug, Clone, Copy, PartialEq, Eq, Structural)]
pub enum Stage {
    /// What the first frame asks for.
    Start,
    /// The reporter, which is to be installed.
    Reporter,
    /// The descriptor that came with the frame, which is to be a tun as it was declared.
    Tun,
    /// The tun's registration with the runtime.
    Register,
    /// The budget, which is to be measured.
    Budget,
    /// The dataplane, which is to be prepared.
    Prepare,
    /// The tasks of the dataplane, which are to be started.
    Begin,
    /// The acknowledgement of the call.
    Acknowledged,
    /// The end of the dataplane or of configuring.
    Served,
    /// Nothing: the conversation is over.
    Over,
}

/// What came of it.
pub enum Event {
    /// What the first frame asks for, or why it cannot be decoded.
    Start(Result<Result<Start, Rejected>, String>),
    Reporter(Result<(), IoError>),
    /// The address of the tun.
    Tun(Result<u32, IoError>),
    Register(Result<(), IoError>),
    Budget(Result<(), IoError>),
    Prepare(Result<(), IoError>),
    Begun,
    Acknowledged(bool),
    Served(Served),
}

/// What is done next.
pub enum Action {
    InstallReporter,
    VerifyTun,
    Register,
    Measure,
    Prepare,
    /// Both tasks of the dataplane are started.
    Begin,
    Acknowledge { call_id: u64 },
    /// Configs are served, while the dataplane is watched.
    Serve,
    End(Result<(), IoError>),
}

/// How far a conversation has come.
pub struct ConversationState {
    pub terminal: TerminalState,
    /// What started the session.
    pub start: Option<Start>,
    pub stage: Stage,
}

/// Nothing was read yet.
pub open spec fn unstarted() -> ConversationState {
    ConversationState { terminal: TerminalState::Nobody, start: None, stage: Stage::Start }
}

/// Whether an event can come in a stage.
pub open spec fn expected(stage: Stage, event: Event) -> bool {
    match stage {
        Stage::Start => event is Start,
        Stage::Reporter => event is Reporter,
        Stage::Tun => event is Tun,
        Stage::Register => event is Register,
        Stage::Budget => event is Budget,
        Stage::Prepare => event is Prepare,
        Stage::Begin => event is Begun,
        Stage::Acknowledged => event is Acknowledged,
        Stage::Served => event is Served,
        Stage::Over => false,
    }
}

/// The same in another stage.
pub open spec fn moved(s: ConversationState, stage: Stage) -> ConversationState {
    ConversationState { stage, ..s }
}

/// Whether what starts the session was dealt with.
pub open spec fn took_start(
    before: ConversationState,
    start: Result<Result<Start, Rejected>, String>,
    site: Site,
    after: ConversationState,
    action: Action,
) -> bool {
    match start {
        Err(why) => after == moved(before, Stage::Over) && (action matches Action::End(Err(told)) && contextual(
            plain_error(ErrorKind::InvalidData, why@),
            told@,
            "shizuku.control.parse_frame"@,
            site,
            Seq::empty(),
        )),
        Ok(Ok(start)) => action is InstallReporter && after == (ConversationState {
            terminal: TerminalState::Start { call_id: start.call_id, report: None },
            start: Some(start),
            stage: Stage::Reporter,
        }),
        Ok(Err(rejected)) => action == Action::End(Err(rejected.error)) && after == (ConversationState {
            terminal: match rejected.call_id {
                Some(call_id) => TerminalState::Start { call_id, report: None },
                None => before.terminal,
            },
            start: before.start,
            stage: Stage::Over,
        }),
    }
}

/// Whether the tun was dealt with: the first IPv4 address that was declared, where one was, is to be its address.
pub open spec fn took_tun(
    before: ConversationState,
    tun: Result<u32, IoError>,
    site: Site,
    after: ConversationState,
    action: Action,
) -> bool {
    match tun {
        Err(error) => after == moved(before, Stage::Over) && action == Action::End(Err(error)),
        Ok(gateway) => before.start matches Some(start) && match first_ipv4(start.gateway_addresses@, 0) {
            Some(declared) if declared != gateway => after == moved(before, Stage::Over) && (
            action matches Action::End(Err(told)) && contextual(
                wrong_gateway(start.interface_name@, gateway, declared),
                told@,
                start_context(),
                site,
                Seq::empty(),
            )),
            _ => action is Register && after == moved(before, Stage::Register),
        },
    }
}

/// Whether a step without a result of its own was dealt with: where it failed the conversation ends, in the context
/// that is given where one is.
pub open spec fn took_step(
    before: ConversationState,
    result: Result<(), IoError>,
    context: Option<Seq<char>>,
    site: Site,
    after: ConversationState,
    action: Action,
    next: Stage,
) -> bool {
    match result {
        Ok(_) => after == moved(before, next),
        Err(error) => after == moved(before, Stage::Over) && (action matches Action::End(Err(told))
            && match context {
            Some(context) => contextual(error@, told@, context, site, Seq::empty()),
            None => told == error,
        }),
    }
}

/// Whether how serving ended was dealt with.
pub open spec fn took_end(
    before: ConversationState,
    served: Served,
    after: ConversationState,
    action: Action,
) -> bool {
    let ended = moved(before, Stage::Over);
    match served {
        Served::Dataplane(Watched::Cancelled) => after == ended && (action matches Action::End(result)
            && result is Ok),
        Served::Dataplane(Watched::Finished { result, .. }) => after == ended && action == Action::End(result),
        Served::Configured(Ok(Ended::Silent)) => (action matches Action::End(result) && result is Ok) && after
            == (ConversationState { terminal: TerminalState::Nobody, ..ended }),
        Served::Configured(Ok(Ended::Refused { call_id, report, error })) => action == Action::End(Err(error))
            && after == (ConversationState {
            terminal: TerminalState::Refused { call_id, report: report@ },
            ..ended
        }),
        Served::Configured(Err(error)) => after == ended && action == Action::End(Err(error)),
    }
}

/// Whether an event was dealt with.
pub open spec fn conversed(
    before: ConversationState,
    event: Event,
    site: Site,
    after: ConversationState,
    action: Action,
) -> bool {
    match event {
        Event::Start(start) => took_start(before, start, site, after, action),
        Event::Reporter(result) => took_step(before, result, None, site, after, action, Stage::Tun) && (
        result is Ok ==> action is VerifyTun),
        Event::Tun(tun) => took_tun(before, tun, site, after, action),
        Event::Register(result) => took_step(
            before,
            result,
            Some("shizuku.control.tun_register"@),
            site,
            after,
            action,
            Stage::Budget,
        ) && (result is Ok ==> action is Measure),
        Event::Budget(result) => took_step(
            before,
            result,
            Some("shizuku.control.budget"@),
            site,
            after,
            action,
            Stage::Prepare,
        ) && (result is Ok ==> action is Prepare),
        Event::Prepare(result) => took_step(before, result, None, site, after, action, Stage::Begin) && (
        result is Ok ==> action is Begin),
        Event::Begun => after == moved(before, Stage::Acknowledged) && (before.start matches Some(start)
            && action == (Action::Acknowledge { call_id: start.call_id })),
        Event::Acknowledged(sent) => if sent {
            action is Serve && after == moved(before, Stage::Served)
        } else {
            after == moved(before, Stage::Over) && (action matches Action::End(Err(told)) && contextual(
                plain_error(
                    ErrorKind::BrokenPipe,
                    "the control writer stopped before the session started"@,
                ),
                told@,
                start_context(),
                site,
                Seq::empty(),
            ))
        },
        Event::Served(served) => took_end(before, served, after, action),
    }
}

/// A conversation with the app, from its first frame until serving it ended.
pub struct Conversation {
    session: Session,
    start: Option<Start>,
    stage: Stage,
}

impl View for Conversation {
    type V = ConversationState;

    closed spec fn view(&self) -> ConversationState {
        ConversationState { terminal: self.session.spec_terminal(), start: self.start, stage: self.stage }
    }
}

impl Conversation {
    /// What started the session is known from then on.
    pub closed spec fn wf(&self) -> bool {
        self.start is Some || self.stage is Start || self.stage is Over
    }

    /// The first frame is waited for.
    pub fn new() -> (r: Self)
        ensures
            r.wf(),
            r@ == unstarted(),
    {
        Conversation { session: Session::new(), start: None, stage: Stage::Start }
    }

    /// What is waited for.
    pub fn stage(&self) -> (r: Stage)
        ensures
            r == self@.stage,
    {
        self.stage
    }

    /// What started the session.
    pub fn start(&self) -> (r: Option<&Start>)
        ensures
            match r {
                Some(start) => self@.start == Some(*start),
                None => self@.start is None,
            },
    {
        self.start.as_ref()
    }

    /// The session, whose end is to be routed.
    pub fn into_session(self) -> (r: Session)
        ensures
            r.spec_terminal() == self@.terminal,
    {
        self.session
    }

    fn end(&mut self, result: Result<(), IoError>) -> (r: Action)
        ensures
            final(self).wf(),
            final(self)@ == moved(old(self)@, Stage::Over),
            r == Action::End(result),
    {
        self.stage = Stage::Over;
        Action::End(result)
    }

    fn step(&mut self, result: Result<(), IoError>, next: Stage, action: Action) -> (r: Action)
        requires
            old(self)@.start is Some,
        ensures
            final(self).wf(),
            match result {
                Ok(_) => r == action && final(self)@ == moved(old(self)@, next),
                Err(error) => r == Action::End(Err(error)) && final(self)@ == moved(old(self)@, Stage::Over),
            },
    {
        match result {
            Ok(_) => {
                self.stage = next;
                action
            },
            Err(error) => self.end(Err(error)),
        }
    }

    /// Takes what came of what was waited for.
    pub fn advance(&mut self, event: Event, site: &Site) -> (r: Action)
        requires
            old(self).wf(),
            expected(old(self)@.stage, event),
        ensures
            final(self).wf(),
            conversed(old(self)@, event, *site, final(self)@, r),
    {
        match event {
            Event::Start(start) => {
                let start = match Serving::new().decoded(start, site) {
                    Ok(start) => start,
                    Err(error) => return self.end(Err(error)),
                };
                match self.session.started(start) {
                    Ok(start) => {
                        self.start = Some(start);
                        self.stage = Stage::Reporter;
                        Action::InstallReporter
                    },
                    Err(error) => self.end(Err(error)),
                }
            },
            Event::Reporter(result) => self.step(result, Stage::Tun, Action::VerifyTun),
            Event::Tun(tun) => {
                let gateway: u32 = match tun {
                    Ok(gateway) => gateway,
                    Err(error) => return self.end(Err(error)),
                };
                let held = match &self.start {
                    Some(start) => Session::gateway(start, gateway, site),
                    None => Ok(()),
                };
                self.step(held, Stage::Register, Action::Register)
            },
            Event::Register(result) => {
                let result = result.with_report_context("shizuku.control.tun_register", site);
                self.step(result, Stage::Budget, Action::Measure)
            },
            Event::Budget(result) => {
                let result = result.with_report_context("shizuku.control.budget", site);
                self.step(result, Stage::Prepare, Action::Prepare)
            },
            Event::Prepare(result) => self.step(result, Stage::Begin, Action::Begin),
            Event::Begun => {
                self.stage = Stage::Acknowledged;
                let call_id: u64 = match &self.start {
                    Some(start) => start.call_id,
                    None => 0,
                };
                Action::Acknowledge { call_id }
            },
            Event::Acknowledged(sent) => {
                let result = Session::acknowledged(sent, site);
                self.step(result, Stage::Served, Action::Serve)
            },
            Event::Served(served) => {
                let result = self.session.served(served);
                self.end(result)
            },
        }
    }
}

/// Whether these are the events of one conversation, what was done after each, and how far it had come before each
/// and after the last.
pub open spec fn converses(
    states: Seq<ConversationState>,
    events: Seq<Event>,
    sites: Seq<Site>,
    actions: Seq<Action>,
) -> bool {
    &&& states.len() == events.len() + 1
    &&& sites.len() == events.len()
    &&& actions.len() == events.len()
    &&& states[0] == unstarted()
    &&& forall|i: int|
        0 <= i < events.len() ==> expected(states[i].stage, events[i]) && conversed(
            states[i],
            events[i],
            sites[i],
            states[i + 1],
            #[trigger] actions[i],
        )
}

/// How many events a conversation has dealt with when it is in a stage.
pub open spec fn events_before(stage: Stage) -> int {
    match stage {
        Stage::Start => 0,
        Stage::Reporter => 1,
        Stage::Tun => 2,
        Stage::Register => 3,
        Stage::Budget => 4,
        Stage::Prepare => 5,
        Stage::Begin => 6,
        Stage::Acknowledged => 7,
        Stage::Served => 8,
        Stage::Over => -1,
    }
}

/// The steps of a conversation come in one order, each once.
pub proof fn law_one_step_after_the_other(
    states: Seq<ConversationState>,
    events: Seq<Event>,
    sites: Seq<Site>,
    actions: Seq<Action>,
    i: int,
)
    requires
        converses(states, events, sites, actions),
        0 <= i < states.len(),
    ensures
        states[i].stage is Over || events_before(states[i].stage) == i,
        states[i].start is Some || states[i].stage is Start || states[i].stage is Over,
    decreases i,
{
    if i > 0 {
        law_one_step_after_the_other(states, events, sites, actions, i - 1);
        assert(conversed(states[i - 1], events[i - 1], sites[i - 1], states[i], actions[i - 1]));
    }
}

/// A conversation that is not over was not over one event earlier, and what came was a success.
proof fn lemma_not_over(
    states: Seq<ConversationState>,
    events: Seq<Event>,
    sites: Seq<Site>,
    actions: Seq<Action>,
    i: int,
)
    requires
        converses(states, events, sites, actions),
        0 <= i < actions.len(),
        !(states[i + 1].stage is Over),
    ensures
        !(states[i].stage is Over),
        events_before(states[i].stage) == i,
        match events[i] {
            Event::Start(result) => result matches Ok(Ok(_)),
            Event::Reporter(result) => result is Ok,
            Event::Tun(result) => result matches Ok(gateway) && states[i].start matches Some(start) && (first_ipv4(
                start.gateway_addresses@,
                0,
            ) matches Some(declared) ==> declared == gateway),
            Event::Register(result) => result is Ok,
            Event::Budget(result) => result is Ok,
            Event::Prepare(result) => result is Ok,
            Event::Begun => true,
            Event::Acknowledged(sent) => sent,
            Event::Served(_) => false,
        },
        expected(states[i].stage, events[i]),
{
    law_one_step_after_the_other(states, events, sites, actions, i);
    assert(conversed(states[i], events[i], sites[i], states[i + 1], actions[i]));
}

/// A reporter is installed only once the conversation has a call that its end answers.
pub proof fn law_reporting_needs_a_call(
    states: Seq<ConversationState>,
    events: Seq<Event>,
    sites: Seq<Site>,
    actions: Seq<Action>,
    i: int,
)
    requires
        converses(states, events, sites, actions),
        0 <= i < actions.len(),
        actions[i] is InstallReporter,
    ensures
        states[i + 1].terminal is Start,
{
    assert(conversed(states[i], events[i], sites[i], states[i + 1], actions[i]));
}

/// The call is acknowledged only once the tun was verified and has the address that was declared, the budget was
/// measured, the dataplane was prepared, and its tasks were started.
pub proof fn law_acknowledged_once_begun(
    states: Seq<ConversationState>,
    events: Seq<Event>,
    sites: Seq<Site>,
    actions: Seq<Action>,
    i: int,
)
    requires
        converses(states, events, sites, actions),
        0 <= i < actions.len(),
        actions[i] is Acknowledge,
    ensures
        i == 6,
        events[6] is Begun,
        events[5] matches Event::Prepare(Ok(_)),
        events[4] matches Event::Budget(Ok(_)),
        events[3] matches Event::Register(Ok(_)),
        events[2] matches Event::Tun(Ok(gateway)) && states[2].start matches Some(start) && (first_ipv4(
            start.gateway_addresses@,
            0,
        ) matches Some(declared) ==> declared == gateway),
        events[1] matches Event::Reporter(Ok(_)),
{
    law_one_step_after_the_other(states, events, sites, actions, i);
    assert(conversed(states[i], events[i], sites[i], states[i + 1], actions[i]));
    lemma_not_over(states, events, sites, actions, 5);
    lemma_not_over(states, events, sites, actions, 4);
    lemma_not_over(states, events, sites, actions, 3);
    lemma_not_over(states, events, sites, actions, 2);
    lemma_not_over(states, events, sites, actions, 1);
}

/// What a list of reports says.
pub open spec fn report_views(reports: Seq<DaemonErrorReport>) -> Seq<ReportState> {
    Seq::new(reports.len(), |i: int| reports[i]@)
}

/// A list of one report, or of none.
pub open spec fn start_with(report: Option<ReportState>) -> Seq<ReportState> {
    match report {
        Some(report) => seq![report],
        None => Seq::empty(),
    }
}

/// How tasks ended, by name.
pub open spec fn task_outcomes(tasks: Seq<(&'static str, Result<(), IoError>)>) -> Seq<
    (Seq<char>, Result<(), ErrorState>),
> {
    Seq::new(tasks.len(), |i: int| (tasks[i].0@, outcome(tasks[i].1)))
}

/// Whether what the session itself ended with was routed, where it is.
pub open spec fn routed_session(
    before: TerminalState,
    after: TerminalState,
    result: Result<(), ErrorState>,
    site: Site,
    told: Option<ReportState>,
) -> bool {
    if before is Refused {
        after == before && told is None
    } else {
        routed(before, after, "shizuku.app_session"@, result, site, told)
    }
}

/// The reports among the first `n` that came back.
pub open spec fn came_back(added: Seq<Option<ReportState>>, n: int) -> Seq<ReportState>
    decreases n,
{
    if n <= 0 {
        Seq::empty()
    } else {
        came_back(added, n - 1) + start_with(added[n - 1])
    }
}

/// Whether tasks were routed, one after the other, behind what was told before. After `i` of them the session's
/// end stands as `states[i]`, and `added[i]` came back of the next.
pub open spec fn routing(
    tasks: Seq<(Seq<char>, Result<(), ErrorState>)>,
    site: Site,
    told_before: Seq<ReportState>,
    told: Seq<ReportState>,
    states: Seq<TerminalState>,
    added: Seq<Option<ReportState>>,
) -> bool {
    &&& states.len() == tasks.len() + 1
    &&& added.len() == tasks.len()
    &&& forall|i: int|
        0 <= i < tasks.len() ==> routed(
            states[i],
            states[i + 1],
            tasks[i].0,
            tasks[i].1,
            site,
            #[trigger] added[i],
        )
    &&& told == told_before + came_back(added, added.len() as int)
}

/// Whether tasks were routed from one state of the session's end to another.
pub open spec fn routed_tasks(
    before: TerminalState,
    after: TerminalState,
    tasks: Seq<(Seq<char>, Result<(), ErrorState>)>,
    site: Site,
    told_before: Seq<ReportState>,
    told: Seq<ReportState>,
) -> bool {
    exists|states: Seq<TerminalState>, added: Seq<Option<ReportState>>|
        #[trigger] routing(tasks, site, told_before, told, states, added) && states[0] == before
            && states.last() == after
}

proof fn lemma_came_back(added: Seq<Option<ReportState>>, more: Option<ReportState>, n: int)
    requires
        n <= added.len(),
    ensures
        came_back(added.push(more), n) == came_back(added, n),
    decreases n,
{
    if n > 0 {
        lemma_came_back(added, more, n - 1);
        assert(added.push(more)[n - 1] == added[n - 1]);
    }
}

proof fn lemma_one_more(
    before: TerminalState,
    was: TerminalState,
    after: TerminalState,
    tasks: Seq<(Seq<char>, Result<(), ErrorState>)>,
    site: Site,
    told_before: Seq<ReportState>,
    so_far: Seq<ReportState>,
    more: Option<ReportState>,
)
    requires
        tasks.len() > 0,
        routed_tasks(before, was, tasks.drop_last(), site, told_before, so_far),
        routed(was, after, tasks.last().0, tasks.last().1, site, more),
    ensures
        routed_tasks(before, after, tasks, site, told_before, so_far + start_with(more)),
{
    let (states, added) = choose|states: Seq<TerminalState>, added: Seq<Option<ReportState>>|
        #[trigger] routing(tasks.drop_last(), site, told_before, so_far, states, added) && states[0]
            == before && states.last() == was;
    let all_states = states.push(after);
    let all_added = added.push(more);
    lemma_came_back(added, more, added.len() as int);
    assert(told_before + came_back(all_added, all_added.len() as int) =~= so_far + start_with(more));
    assert forall|i: int| 0 <= i < tasks.len() implies routed(
        all_states[i],
        all_states[i + 1],
        tasks[i].0,
        tasks[i].1,
        site,
        #[trigger] all_added[i],
    ) by {
        if i < tasks.len() - 1 {
            assert(all_added[i] == added[i]);
            assert(tasks.drop_last()[i] == tasks[i]);
        }
    }
    assert(routing(tasks, site, told_before, so_far + start_with(more), all_states, all_added));
}

/// The tasks' results in one.
pub fn dataplane(tasks: Vec<(&'static str, Result<(), IoError>)>) -> (r: Result<(), IoError>)
    ensures
        outcome(r) == all_combined(
            Seq::new(tasks@.len(), |i: int| outcome(tasks@[i].1)),
        ),
{
    let ghost all = Seq::new(tasks@.len(), |i: int| outcome(tasks@[i].1));
    let ghost before = tasks@;
    let mut tasks = tasks;
    let mut result: Result<(), IoError> = Ok(());
    let count: usize = tasks.len();
    let mut i: usize = 0;
    assert(all.take(0) =~= Seq::empty());
    while i < count
        invariant
            i <= count,
            count == before.len(),
            tasks@ == before.subrange(i as int, count as int),
            all == Seq::new(before.len(), |i: int| outcome(before[i].1)),
            outcome(result) == all_combined(all.take(i as int)),
        decreases count - i,
    {
        let (_, task) = tasks.remove(0);
        result = combine(result, task);
        i += 1;
        proof {
            assert(tasks@ =~= before.subrange(i as int, count as int));
            assert(all.take(i as int).drop_last() =~= all.take(i as int - 1));
            assert(all.take(i as int).last() == outcome(before[i as int - 1].1));
        }
    }
    assert(all.take(count as int) =~= all);
    result
}

/// How the session ended in all: itself, its dataplane, its last answer and its writer, in this order.
pub fn concluded(
    result: Result<(), IoError>,
    dataplane: Result<(), IoError>,
    ending: Result<(), IoError>,
    writing: Result<(), IoError>,
) -> (r: Result<(), IoError>)
    ensures
        outcome(r) == combined(
            combined(outcome(result), outcome(dataplane)),
            combined(outcome(ending), outcome(writing)),
        ),
{
    combine(combine(result, dataplane), combine(ending, writing))
}

/// The first failure of a session is the one its call ends with; every later one is told by itself, and changes
/// nothing of that.
pub proof fn law_first_failure_answers_the_call(call_id: u64, first: ReportState, later: ReportState)
    ensures
        ({
            let open = TerminalState::Start { call_id, report: None };
            let (answered, told) = claimed(open, first);
            &&& answered == (TerminalState::Start { call_id, report: Some(first) })
            &&& told is None
            &&& claimed(answered, later) == (answered, Some(later))
        }),
{
}

/// Where nobody waits, or a call was refused, every failure is told by itself.
pub proof fn law_others_never_claim(terminal: TerminalState, report: ReportState)
    requires
        !(terminal is Start),
    ensures
        claimed(terminal, report) == (terminal, Some(report)),
{
}

/// A start that was read is what the session is about: it has to be answered under its own number, and the reporter
/// comes first.
pub proof fn law_a_start_opens_the_session(
    before: ConversationState,
    start: Start,
    site: Site,
    after: ConversationState,
    action: Action,
)
    requires
        conversed(before, Event::Start(Ok(Ok(start))), site, after, action),
    ensures
        action is InstallReporter,
        after.stage is Reporter,
        after.start == Some(start),
        after.terminal == (TerminalState::Start { call_id: start.call_id, report: None }),
{
}

/// Every step that succeeds leads to the next, in this order: the tun is verified, it is registered, what there is is
/// measured, the session is prepared, it begins, its start is acknowledged under the number it came with, and it
/// serves. Whom the session answers stays as it was.
pub proof fn law_every_step_that_succeeds_leads_on(
    before: ConversationState,
    event: Event,
    site: Site,
    after: ConversationState,
    action: Action,
)
    requires
        conversed(before, event, site, after, action),
    ensures
        event is Reporter && event->Reporter_0 is Ok ==> action is VerifyTun && after.stage is Tun,
        event is Register && event->Register_0 is Ok ==> action is Measure && after.stage is Budget,
        event is Budget && event->Budget_0 is Ok ==> action is Prepare && after.stage is Prepare,
        event is Prepare && event->Prepare_0 is Ok ==> action is Begin && after.stage is Begin,
        event is Begun ==> after.stage is Acknowledged && before.start is Some && action == (Action::Acknowledge {
            call_id: before.start->0.call_id,
        }),
        event is Acknowledged && event->Acknowledged_0 ==> action is Serve && after.stage is Served,
        !(event is Start) && !(event is Served) ==> after.terminal == before.terminal && after.start == before.start,
{
}

/// The tun is the one that was declared where its address is the first IPv4 address that was, or none was. Then it is
/// registered. Any other ends the session with an error.
pub proof fn law_the_tun_has_the_declared_address(
    before: ConversationState,
    gateway: u32,
    site: Site,
    after: ConversationState,
    action: Action,
    i: int,
)
    requires
        conversed(before, Event::Tun(Ok(gateway)), site, after, action),
        before.start is Some,
        0 <= i <= before.start->0.gateway_addresses@.len(),
        forall|k: int| 0 <= k < i ==> (#[trigger] before.start->0.gateway_addresses@[k]) is V6,
    ensures
        ({
            let declared = before.start->0.gateway_addresses@;
            &&& i == declared.len() ==> action is Register && after.stage is Register
            &&& i < declared.len() && declared[i] == IpAddr::V4(gateway) ==> action is Register && after.stage
                is Register
            &&& i < declared.len() && declared[i] is V4 && declared[i] != IpAddr::V4(gateway) ==> {
                &&& action is End
                &&& action->End_0 is Err
                &&& action->End_0->Err_0.kind is InvalidInput
                &&& after.stage is Over
            }
        }),
{
    lemma_first_ipv4(before.start->0.gateway_addresses@, 0, i);
}

proof fn lemma_first_ipv4(addresses: Seq<IpAddr>, a: int, i: int)
    requires
        0 <= a <= i <= addresses.len(),
        forall|k: int| 0 <= k < i ==> (#[trigger] addresses[k]) is V6,
    ensures
        first_ipv4(addresses, a) == first_ipv4(addresses, i),
    decreases i - a,
{
    if a < i {
        assert(addresses[a] is V6);
        lemma_first_ipv4(addresses, a + 1, i);
    }
}

/// The first IPv4 address among several is the one behind nothing but IPv6 addresses.
pub proof fn law_the_first_ipv4_address_counts(addresses: Seq<IpAddr>, i: int)
    requires
        0 <= i <= addresses.len(),
        forall|k: int| 0 <= k < i ==> (#[trigger] addresses[k]) is V6,
    ensures
        i < addresses.len() && addresses[i] is V4 ==> first_ipv4(addresses, 0) == Some(addresses[i]->V4_0),
        i == addresses.len() ==> first_ipv4(addresses, 0) is None,
{
    lemma_first_ipv4(addresses, 0, i);
}

/// A step that fails ends the session with its error, whose kind stays, and nothing is done after it.
pub proof fn law_a_step_that_fails_ends_the_session(
    before: ConversationState,
    event: Event,
    error: IoError,
    site: Site,
    after: ConversationState,
    action: Action,
)
    requires
        conversed(before, event, site, after, action),
        event == Event::Reporter(Err(error)) || event == Event::Tun(Err(error)) || event == Event::Register(Err(error))
            || event == Event::Budget(Err(error)) || event == Event::Prepare(Err(error)),
    ensures
        after.stage is Over,
        action is End,
        action->End_0 is Err,
        action->End_0->Err_0.kind == error.kind,
        after.terminal == before.terminal,
{
    assert(error@.kind == error.kind);
    assert(action->End_0->Err_0@.kind == action->End_0->Err_0.kind);
}

/// A start that could not be acknowledged ends the session, and so does a frame that could not be read. A start that
/// was rejected ends it with its own error, and where it could be told whose it was that call is answered.
pub proof fn law_what_keeps_a_session_from_starting(
    before: ConversationState,
    rejected: Rejected,
    why: String,
    site: Site,
    after: ConversationState,
    action: Action,
    unread: ConversationState,
    unread_action: Action,
    unsent: ConversationState,
    unsent_action: Action,
)
    requires
        conversed(before, Event::Start(Ok(Err(rejected))), site, after, action),
        conversed(before, Event::Start(Err(why)), site, unread, unread_action),
        conversed(before, Event::Acknowledged(false), site, unsent, unsent_action),
    ensures
        action == Action::End(Err(rejected.error)),
        after.stage is Over,
        rejected.call_id is Some ==> after.terminal == (TerminalState::Start {
            call_id: rejected.call_id->0,
            report: None,
        }),
        rejected.call_id is None ==> after.terminal == before.terminal,
        unread_action is End && unread_action->End_0 is Err && unread_action->End_0->Err_0.kind is InvalidData,
        unread.stage is Over,
        unsent_action is End && unsent_action->End_0 is Err && unsent_action->End_0->Err_0.kind is BrokenPipe,
        unsent.stage is Over,
{
    assert(unread_action->End_0->Err_0@.kind == unread_action->End_0->Err_0.kind);
    assert(unsent_action->End_0->Err_0@.kind == unsent_action->End_0->Err_0.kind);
}

/// How a session that served ends: well where it was cancelled or its app went away silently, whom nobody answers then,
/// with its own result where it finished, and with the refusal where a configuration was refused, whose call is
/// answered with the report.
pub proof fn law_how_a_session_ends(
    before: ConversationState,
    served: Served,
    site: Site,
    after: ConversationState,
    action: Action,
)
    requires
        conversed(before, Event::Served(served), site, after, action),
    ensures
        after.stage is Over,
        action is End,
        served is Dataplane ==> after.terminal == before.terminal,
        served is Dataplane && served->Dataplane_0 is Cancelled ==> action->End_0 is Ok,
        served is Dataplane && served->Dataplane_0 is Finished ==> action->End_0 == served->Dataplane_0->result,
        served is Configured && served->Configured_0 is Err ==> action->End_0 == Err::<(), IoError>(
            served->Configured_0->Err_0,
        ) && after.terminal == before.terminal,
        served is Configured && served->Configured_0 is Ok && served->Configured_0->Ok_0 is Silent ==> action->End_0
            is Ok && after.terminal is Nobody,
        served is Configured && served->Configured_0 is Ok && served->Configured_0->Ok_0 is Refused ==> {
            let refused = served->Configured_0->Ok_0;
            &&& action->End_0 == Err::<(), IoError>(refused->error)
            &&& after.terminal == (TerminalState::Refused { call_id: refused->call_id, report: refused->report@ })
        },
{
}

/// A success is told to nobody. A failure answers the call that waits where one does, and is told otherwise, so that
/// none is lost.
pub proof fn law_no_failure_is_lost(
    before: TerminalState,
    after: TerminalState,
    context: Seq<char>,
    result: Result<(), ErrorState>,
    site: Site,
    told: Option<ReportState>,
)
    requires
        routed(before, after, context, result, site, told),
    ensures
        result is Ok ==> after == before && told is None,
        result is Err && before is Start && before->Start_report is None ==> {
            &&& told is None
            &&& after is Start
            &&& after->Start_call_id == before->Start_call_id
            &&& after->Start_report is Some
            &&& reports_error(after->Start_report->0, context, result->Err_0, site, Seq::empty())
        },
        result is Err && !(before is Start && before->Start_report is None) ==> {
            &&& after == before
            &&& told is Some
            &&& reports_error(told->0, context, result->Err_0, site, Seq::empty())
        },
{
}

/// A refused session was answered already: its own end is told to nobody.
pub proof fn law_a_refusal_is_the_last_word(
    before: TerminalState,
    after: TerminalState,
    result: Result<(), ErrorState>,
    site: Site,
    told: Option<ReportState>,
)
    requires
        routed_session(before, after, result, site, told),
    ensures
        before is Refused ==> after == before && told is None,
        !(before is Refused) && result is Ok ==> after == before && told is None,
        !(before is Refused) && result is Err ==> told is Some || after != before,
{
}

/// What comes back of several results is what came back of each, in their order.
pub proof fn law_what_comes_back_is_in_order(added: Seq<Option<ReportState>>, n: int)
    requires
        0 <= n < added.len(),
    ensures
        came_back(added, 0).len() == 0,
        added[n] is Some ==> came_back(added, n + 1) == came_back(added, n).push(added[n]->0),
        added[n] is None ==> came_back(added, n + 1) == came_back(added, n),
        unstarted().terminal is Nobody,
        unstarted().start is None,
        unstarted().stage is Start,
{
    if added[n] is Some {
        assert(came_back(added, n + 1) =~= came_back(added, n).push(added[n]->0));
    } else {
        assert(came_back(added, n + 1) =~= came_back(added, n));
    }
}

/// How many of the first `n` tasks failed.
pub open spec fn failures(tasks: Seq<(Seq<char>, Result<(), ErrorState>)>, n: int) -> nat
    decreases n,
{
    if n <= 0 {
        0
    } else {
        failures(tasks, n - 1) + if tasks[n - 1].1 is Err {
            1nat
        } else {
            0
        }
    }
}

/// Every task that failed is told of once: the first answers the call that waits, where one does, and each of the
/// others comes back behind what was told before. Tasks that did not fail are told of to nobody.
pub proof fn law_every_failed_task_is_told_of_once(
    before: TerminalState,
    after: TerminalState,
    tasks: Seq<(Seq<char>, Result<(), ErrorState>)>,
    site: Site,
    told_before: Seq<ReportState>,
    told: Seq<ReportState>,
)
    requires
        routed_tasks(before, after, tasks, site, told_before, told),
    ensures
        ({
            let failed = failures(tasks, tasks.len() as int);
            let waits = before is Start && before->Start_report is None;
            &&& waits && failed > 0 ==> {
                &&& told.len() == told_before.len() + failed - 1
                &&& after is Start
                &&& after->Start_call_id == before->Start_call_id
                &&& after->Start_report is Some
            }
            &&& !waits || failed == 0 ==> told.len() == told_before.len() + failed && after == before
            &&& told.subrange(0, told_before.len() as int) == told_before
        }),
{
    let (states, added) = choose|states: Seq<TerminalState>, added: Seq<Option<ReportState>>|
        #[trigger] routing(tasks, site, told_before, told, states, added) && states[0] == before && states.last()
            == after;
    lemma_routed(before, tasks, site, told_before, told, states, added, tasks.len() as int);
    assert(told.subrange(0, told_before.len() as int) =~= told_before);
}

proof fn lemma_routed(
    before: TerminalState,
    tasks: Seq<(Seq<char>, Result<(), ErrorState>)>,
    site: Site,
    told_before: Seq<ReportState>,
    told: Seq<ReportState>,
    states: Seq<TerminalState>,
    added: Seq<Option<ReportState>>,
    n: int,
)
    requires
        routing(tasks, site, told_before, told, states, added),
        states[0] == before,
        0 <= n <= tasks.len(),
    ensures
        ({
            let failed = failures(tasks, n);
            let waits = before is Start && before->Start_report is None;
            &&& waits && failed > 0 ==> {
                &&& came_back(added, n).len() == failed - 1
                &&& states[n] is Start
                &&& states[n]->Start_call_id == before->Start_call_id
                &&& states[n]->Start_report is Some
            }
            &&& !waits || failed == 0 ==> came_back(added, n).len() == failed && states[n] == before
        }),
    decreases n,
{
    if n > 0 {
        lemma_routed(before, tasks, site, told_before, told, states, added, n - 1);
        let one = added[n - 1];
        assert(routed(states[n - 1], states[n - 1 + 1], tasks[n - 1].0, tasks[n - 1].1, site, one));
        law_no_failure_is_lost(states[n - 1], states[n], tasks[n - 1].0, tasks[n - 1].1, site, one);
    }
}

/// A tun with another address than declared is told with both.
pub proof fn law_a_wrong_gateway_is_told_with_both(interface_name: Seq<char>, gateway: u32, declared: u32)
    ensures
        wrong_gateway(interface_name, gateway, declared).message == interface_name + " has address "@ + dotted(gateway)
            + " but "@ + dotted(declared) + " was declared"@,
        wrong_gateway(interface_name, gateway, declared).kind is InvalidInput,
        start_context() == "shizuku.control.start_session"@,
{
}

} // verus!
