//! The configurations of a session, one after the other, from the app to the tun.
use vstd::prelude::*;

use crate::protocol::{
    contextual, daemon_io_error_report_with_details, invalid_data, pair_views, plain_error, reports_error,
    DaemonErrorReport, ErrorKind, ErrorState, IoError, IoErrorReportExt, Site,
};
use crate::session_config::{check, refusal, ConfigState, ShizukuSessionConfig};
use crate::text::{decimal, decimal_text, push_decimal};

verus! {

/// What the app asks of a session.
#[derive(Debug)]
pub enum Request {
    Config { call_id: u64, config: ShizukuSessionConfig },
    CancelSession,
    CancelStale,
}

/// What the app asked that it may not, and the call it asked in where there is one.
#[derive(Debug)]
pub struct Rejected {
    pub call_id: Option<u64>,
    pub error: IoError,
}

/// How configuring ended.
#[derive(Debug)]
pub enum Ended {
    /// The app is gone or has cancelled the session: nobody is answered.
    Silent,
    /// A call is answered with a failure.
    Refused { call_id: u64, report: DaemonErrorReport, error: IoError },
}

/// What comes after an answer of the app's socket.
#[derive(Debug)]
pub enum Received {
    Packet(Vec<u8>),
    End(Result<Ended, IoError>),
}

/// What comes after a request.
#[derive(Debug)]
pub enum Requested {
    /// The configuration may follow; its egress is to be resolved.
    Resolve { call_id: u64, config: ShizukuSessionConfig },
    /// The next packet is to be received.
    Receive,
    End(Result<Ended, IoError>),
}

/// What the tun learns of a configuration.
#[derive(Debug, Clone, Copy, PartialEq, Eq, Structural)]
pub struct Applied {
    pub admitting: bool,
    pub upstream_generation: u64,
}

/// Where a refused call's failure happens.
pub open spec fn config_context() -> Seq<char> {
    "shizuku.control.config"@
}

/// Whether `ended` answers a call with an error.
pub open spec fn refuses(ended: Ended, call_id: u64, error: ErrorState, site: Site) -> bool {
    ended matches Ended::Refused { call_id: answered, report, error: told } && answered == call_id && told@
        == error && reports_error(
        report@,
        config_context(),
        error,
        site,
        seq![("call_id"@, decimal(call_id as nat))],
    )
}

/// Whether `ended` answers a call with an error that happened here.
pub open spec fn refuses_plainly(ended: Ended, call_id: u64, error: ErrorState, site: Site) -> bool {
    ended matches Ended::Refused { error: told, .. } && contextual(
        error,
        told@,
        config_context(),
        site,
        Seq::empty(),
    ) && refuses(ended, call_id, told@, site)
}

fn refuse(call_id: u64, error: IoError, site: &Site) -> (r: Ended)
    ensures
        refuses(r, call_id, error@, *site),
{
    let mut details: Vec<(String, String)> = Vec::new();
    details.push(("call_id".to_owned(), decimal_text(call_id)));
    assert(pair_views(details@) =~= seq![("call_id"@, decimal(call_id as nat))]);
    let report = daemon_io_error_report_with_details("shizuku.control.config", &error, site, &details);
    Ended::Refused { call_id, report, error }
}

fn refuse_plainly(call_id: u64, error: IoError, site: &Site) -> (r: Ended)
    ensures
        refuses_plainly(r, call_id, error@, *site),
{
    refuse(call_id, error.with_report_context("shizuku.control.config", site), site)
}

/// That a configuration may not follow the one before it.
pub open spec fn no_successor(call_id: u64, why: Seq<char>) -> ErrorState {
    plain_error(
        ErrorKind::InvalidData,
        "config call "@ + decimal(call_id as nat) + " is not a valid successor: "@ + why,
    )
}

/// That a configuration names no upstream.
pub open spec fn no_egress(call_id: u64, why: Seq<char>) -> ErrorState {
    plain_error(
        ErrorKind::InvalidData,
        "config call "@ + decimal(call_id as nat) + " has no usable egress: "@ + why,
    )
}

/// The configurations of a session. The last one that was published is known.
pub struct Serving {
    previous: Option<ShizukuSessionConfig>,
}

impl Serving {
    /// The last configuration that was published.
    pub closed spec fn spec_previous(&self) -> Option<ConfigState> {
        match self.previous {
            Some(config) => Some(config@),
            None => None,
        }
    }

    /// Nothing was published.
    pub fn new() -> (r: Self)
        ensures
            r.spec_previous() is None,
    {
        Serving { previous: None }
    }

    /// Takes what the app's socket gave. The app's end is no failure.
    pub fn received(&self, packet: Result<Vec<u8>, IoError>, site: &Site) -> (r: Received)
        ensures
            match packet {
                Ok(packet) => r == Received::Packet(packet),
                Err(error) => if error.kind is UnexpectedEof {
                    r matches Received::End(Ok(ended)) && ended is Silent
                } else {
                    r matches Received::End(Err(told)) && contextual(
                        error@,
                        told@,
                        "shizuku.control.recv_packet"@,
                        *site,
                        Seq::empty(),
                    )
                },
            },
    {
        match packet {
            Ok(packet) => Received::Packet(packet),
            Err(e) => match e.kind {
                ErrorKind::UnexpectedEof => Received::End(Ok(Ended::Silent)),
                _ => Received::End(Err(e.with_report_context("shizuku.control.recv_packet", site))),
            },
        }
    }

    /// Takes what was decoded of a packet, or what is wrong with it.
    pub fn decoded<E>(&self, envelope: Result<E, String>, site: &Site) -> (r: Result<E, IoError>)
        ensures
            match envelope {
                Ok(envelope) => r == Ok::<E, IoError>(envelope),
                Err(e) => r is Err && contextual(
                    plain_error(ErrorKind::InvalidData, e@),
                    r->Err_0@,
                    "shizuku.control.parse_frame"@,
                    *site,
                    Seq::empty(),
                ),
            },
    {
        match envelope {
            Ok(envelope) => Ok(envelope),
            Err(e) => Err(invalid_data(e).with_report_context("shizuku.control.parse_frame", site)),
        }
    }

    /// Takes a request. A configuration that may not follow the last one is refused; so is a request that names
    /// its call; any other that may not be ends the session.
    pub fn requested(&self, request: Result<Request, Rejected>, site: &Site) -> (r: Requested)
        ensures
            match request {
                Ok(Request::Config { call_id, config }) => match refusal(self.spec_previous(), config@) {
                    None => r == (Requested::Resolve { call_id, config }),
                    Some(invalid) => r matches Requested::End(Ok(ended)) && refuses_plainly(
                        ended,
                        call_id,
                        no_successor(call_id, invalid.text()),
                        *site,
                    ),
                },
                Ok(Request::CancelSession) => r matches Requested::End(Ok(ended)) && ended is Silent,
                Ok(Request::CancelStale) => r is Receive,
                Err(rejected) => match rejected.call_id {
                    Some(call_id) => r matches Requested::End(Ok(ended)) && refuses(
                        ended,
                        call_id,
                        rejected.error@,
                        *site,
                    ),
                    None => r == Requested::End(Err(rejected.error)),
                },
            },
    {
        let (call_id, config) = match request {
            Ok(Request::Config { call_id, config }) => (call_id, config),
            Ok(Request::CancelSession) => return Requested::End(Ok(Ended::Silent)),
            Ok(Request::CancelStale) => return Requested::Receive,
            Err(Rejected { call_id: Some(call_id), error }) => {
                return Requested::End(Ok(refuse(call_id, error, site)));
            },
            Err(Rejected { call_id: None, error }) => return Requested::End(Err(error)),
        };
        let checked = match &self.previous {
            Some(previous) => check(Some(previous), &config),
            None => check(None, &config),
        };
        match checked {
            Ok(_) => Requested::Resolve { call_id, config },
            Err(e) => {
                let mut message = "config call ".to_owned();
                push_decimal(&mut message, call_id);
                message.append(" is not a valid successor: ");
                message.append(e.describe().as_str());
                Requested::End(Ok(refuse_plainly(call_id, invalid_data(message), site)))
            },
        }
    }

    /// Takes what was resolved of a configuration's egress, or why nothing was. Nothing more is to be said of one
    /// that was.
    pub fn resolved<E>(&self, call_id: u64, egress: Result<E, String>, site: &Site) -> (r: Result<E, Ended>)
        ensures
            match egress {
                Ok(egress) => r == Ok::<E, Ended>(egress),
                Err(why) => r is Err && refuses_plainly(
                    r->Err_0,
                    call_id,
                    no_egress(call_id, why@),
                    *site,
                ),
            },
    {
        match egress {
            Ok(egress) => Ok(egress),
            Err(why) => {
                let mut message = "config call ".to_owned();
                push_decimal(&mut message, call_id);
                message.append(" has no usable egress: ");
                message.append(why.as_str());
                Err(refuse_plainly(call_id, invalid_data(message), site))
            },
        }
    }

    /// Publishes a configuration: it is the last one from here on, whatever becomes of it.
    pub fn publish(&mut self, config: ShizukuSessionConfig) -> (r: Applied)
        ensures
            final(self).spec_previous() == Some(config@),
            r == (Applied {
                admitting: config.admitting,
                upstream_generation: config.upstream_generation,
            }),
    {
        let applied = Applied {
            admitting: config.admitting,
            upstream_generation: config.upstream_generation,
        };
        self.previous = Some(config);
        applied
    }

    /// Takes whether the tun took a configuration. Where it did not the call is refused.
    pub fn sent(&self, call_id: u64, sent: bool, site: &Site) -> (r: Result<(), Ended>)
        ensures
            r is Ok == sent,
            r matches Err(ended) ==> refuses_plainly(
                ended,
                call_id,
                plain_error(ErrorKind::Other, "tun ingress stopped before the session"@),
                *site,
            ),
    {
        if sent {
            return Ok(());
        }
        Err(refuse_plainly(call_id, IoError::other("tun ingress stopped before the session"), site))
    }

    /// Takes whether the tun applied a configuration that it took.
    pub fn applied(&self, applied: bool, site: &Site) -> (r: Result<(), IoError>)
        ensures
            r is Ok == applied,
            r matches Err(error) ==> contextual(
                plain_error(ErrorKind::Other, "tun ingress dropped a config it accepted"@),
                error@,
                config_context(),
                *site,
                Seq::empty(),
            ),
    {
        if applied {
            return Ok(());
        }
        Err(
            IoError::other("tun ingress dropped a config it accepted").with_report_context(
                "shizuku.control.config",
                site,
            ),
        )
    }

    /// Takes whether a call could be acknowledged.
    pub fn acknowledged(&self, sent: bool, site: &Site) -> (r: Result<(), IoError>)
        ensures
            r is Ok == sent,
            r matches Err(error) ==> contextual(
                plain_error(
                    ErrorKind::BrokenPipe,
                    "the control writer stopped before the session"@,
                ),
                error@,
                config_context(),
                *site,
                Seq::empty(),
            ),
    {
        if sent {
            return Ok(());
        }
        let error = IoError::new(
            ErrorKind::BrokenPipe,
            "the control writer stopped before the session".to_owned(),
        );
        Err(error.with_report_context("shizuku.control.config", site))
    }
}

/// What configuring waits for.
#[derive(Debug, Clone, Copy, PartialEq, Eq, Structural)]
pub enum Stage {
    /// The app's next packet.
    Packet,
    /// What the packet asks for.
    Request,
    /// The egress of a configuration.
    Egress { call_id: u64 },
    /// The tun, which is to take the configuration.
    Sent { call_id: u64 },
    /// The tun, which is to say that what stood before the configuration is gone.
    Applied { call_id: u64 },
    /// The call's acknowledgement.
    Acknowledged { call_id: u64 },
    /// Nothing: configuring is over.
    Over,
}

/// What came of it.
#[derive(Debug)]
pub enum Event {
    Packet(Result<Vec<u8>, IoError>),
    /// What the packet asks for, or why it cannot be decoded.
    Request(Result<Result<Request, Rejected>, String>),
    /// Whether the configuration has an egress, or why not.
    Egress(Result<(), String>),
    Sent(bool),
    Applied(bool),
    Acknowledged(bool),
}

/// What is done next.
#[derive(Debug)]
pub enum Action {
    /// The next packet is received.
    Receive,
    /// A packet is decoded and read.
    Read(Vec<u8>),
    /// The egress of the configuration at hand is resolved.
    Resolve,
    /// A configuration is sent to the tun.
    Publish(Applied),
    /// The tun is waited for.
    AwaitRetired,
    /// A call is acknowledged.
    Acknowledge { call_id: u64 },
    End(Result<Ended, IoError>),
}

/// How far configuring has come.
#[verifier::ext_equal]
pub struct ConfiguringState {
    pub previous: Option<ConfigState>,
    /// The configuration whose egress is waited for.
    pub pending: Option<ConfigState>,
    pub stage: Stage,
}

/// Nothing was received yet.
pub open spec fn unconfigured() -> ConfiguringState {
    ConfiguringState { previous: None, pending: None, stage: Stage::Packet }
}

/// Whether an event can come in a stage.
pub open spec fn expected(stage: Stage, event: Event) -> bool {
    match stage {
        Stage::Packet => event is Packet,
        Stage::Request => event is Request,
        Stage::Egress { .. } => event is Egress,
        Stage::Sent { .. } => event is Sent,
        Stage::Applied { .. } => event is Applied,
        Stage::Acknowledged { .. } => event is Acknowledged,
        Stage::Over => false,
    }
}

/// The same with nothing pending, in another stage.
pub open spec fn moved(s: ConfiguringState, stage: Stage) -> ConfiguringState {
    ConfiguringState { previous: s.previous, pending: None, stage }
}

/// What the tun learns of a configuration.
pub open spec fn applied_of(config: ConfigState) -> Applied {
    Applied { admitting: config.admitting, upstream_generation: config.upstream_generation }
}

/// Whether a packet, or what there is in its place, was dealt with.
pub open spec fn took_packet(
    before: ConfiguringState,
    packet: Result<Vec<u8>, IoError>,
    site: Site,
    after: ConfiguringState,
    action: Action,
) -> bool {
    match packet {
        Ok(packet) => action == Action::Read(packet) && after == moved(before, Stage::Request),
        Err(error) => after == moved(before, Stage::Over) && if error.kind is UnexpectedEof {
            action matches Action::End(Ok(ended)) && ended is Silent
        } else {
            action matches Action::End(Err(told)) && contextual(
                error@,
                told@,
                "shizuku.control.recv_packet"@,
                site,
                Seq::empty(),
            )
        },
    }
}

/// Whether a request was dealt with.
pub open spec fn took_request(
    before: ConfiguringState,
    request: Result<Result<Request, Rejected>, String>,
    site: Site,
    after: ConfiguringState,
    action: Action,
) -> bool {
    match request {
        Err(why) => after == moved(before, Stage::Over) && (action matches Action::End(Err(told)) && contextual(
            plain_error(ErrorKind::InvalidData, why@),
            told@,
            "shizuku.control.parse_frame"@,
            site,
            Seq::empty(),
        )),
        Ok(Ok(Request::Config { call_id, config })) => match refusal(before.previous, config@) {
            None => action is Resolve && after == (ConfiguringState {
                previous: before.previous,
                pending: Some(config@),
                stage: Stage::Egress { call_id },
            }),
            Some(invalid) => after == moved(before, Stage::Over) && (action matches Action::End(Ok(ended))
                && refuses_plainly(ended, call_id, no_successor(call_id, invalid.text()), site)),
        },
        Ok(Ok(Request::CancelSession)) => after == moved(before, Stage::Over) && (action matches Action::End(
            Ok(ended),
        ) && ended is Silent),
        Ok(Ok(Request::CancelStale)) => action is Receive && after == moved(before, Stage::Packet),
        Ok(Err(rejected)) => after == moved(before, Stage::Over) && match rejected.call_id {
            Some(call_id) => action matches Action::End(Ok(ended)) && refuses(
                ended,
                call_id,
                rejected.error@,
                site,
            ),
            None => action == Action::End(Err(rejected.error)),
        },
    }
}

/// Whether an event was dealt with in the stage that configuring was in.
pub open spec fn configured(
    before: ConfiguringState,
    event: Event,
    site: Site,
    after: ConfiguringState,
    action: Action,
) -> bool {
    match event {
        Event::Packet(packet) => took_packet(before, packet, site, after, action),
        Event::Request(request) => took_request(before, request, site, after, action),
        Event::Egress(egress) => before.stage matches Stage::Egress { call_id } && match egress {
            Ok(_) => after == (ConfiguringState {
                previous: before.pending,
                pending: None,
                stage: Stage::Sent { call_id },
            }) && (before.pending matches Some(config) && action == Action::Publish(applied_of(config))),
            Err(why) => after == moved(before, Stage::Over) && (action matches Action::End(Ok(ended))
                && refuses_plainly(ended, call_id, no_egress(call_id, why@), site)),
        },
        Event::Sent(sent) => before.stage matches Stage::Sent { call_id } && if sent {
            action is AwaitRetired && after == moved(before, Stage::Applied { call_id })
        } else {
            after == moved(before, Stage::Over) && (action matches Action::End(Ok(ended)) && refuses_plainly(
                ended,
                call_id,
                plain_error(ErrorKind::Other, "tun ingress stopped before the session"@),
                site,
            ))
        },
        Event::Applied(applied) => before.stage matches Stage::Applied { call_id } && if applied {
            action == (Action::Acknowledge { call_id }) && after == moved(
                before,
                Stage::Acknowledged { call_id },
            )
        } else {
            after == moved(before, Stage::Over) && (action matches Action::End(Err(told)) && contextual(
                plain_error(ErrorKind::Other, "tun ingress dropped a config it accepted"@),
                told@,
                config_context(),
                site,
                Seq::empty(),
            ))
        },
        Event::Acknowledged(sent) => if sent {
            action is Receive && after == moved(before, Stage::Packet)
        } else {
            after == moved(before, Stage::Over) && (action matches Action::End(Err(told)) && contextual(
                plain_error(
                    ErrorKind::BrokenPipe,
                    "the control writer stopped before the session"@,
                ),
                told@,
                config_context(),
                site,
                Seq::empty(),
            ))
        },
    }
}

/// Configuring a session, from one packet of the app to the next.
pub struct Configuring {
    serving: Serving,
    pending: Option<ShizukuSessionConfig>,
    stage: Stage,
}

impl View for Configuring {
    type V = ConfiguringState;

    closed spec fn view(&self) -> ConfiguringState {
        ConfiguringState {
            previous: self.serving.spec_previous(),
            pending: match self.pending {
                Some(config) => Some(config@),
                None => None,
            },
            stage: self.stage,
        }
    }
}

impl Configuring {
    /// A configuration is at hand exactly while its egress is waited for.
    pub closed spec fn wf(&self) -> bool {
        self.pending is Some <==> self.stage is Egress
    }

    /// The first packet is waited for.
    pub fn new() -> (r: Self)
        ensures
            r.wf(),
            r@ == unconfigured(),
    {
        Configuring { serving: Serving::new(), pending: None, stage: Stage::Packet }
    }

    /// What is waited for.
    pub fn stage(&self) -> (r: Stage)
        ensures
            r == self@.stage,
    {
        self.stage
    }

    /// The configuration whose egress is waited for.
    pub fn config(&self) -> (r: Option<&ShizukuSessionConfig>)
        ensures
            match r {
                Some(config) => self@.pending == Some(config@),
                None => self@.pending is None,
            },
    {
        self.pending.as_ref()
    }

    fn ended(&mut self) -> (r: ())
        ensures
            final(self).wf(),
            final(self)@ == moved(old(self)@, Stage::Over),
    {
        self.pending = None;
        self.stage = Stage::Over;
    }

    /// Takes what came of what was waited for.
    pub fn advance(&mut self, event: Event, site: &Site) -> (r: Action)
        requires
            old(self).wf(),
            expected(old(self)@.stage, event),
        ensures
            final(self).wf(),
            configured(old(self)@, event, *site, final(self)@, r),
    {
        match event {
            Event::Packet(packet) => match self.serving.received(packet, site) {
                Received::Packet(packet) => {
                    self.stage = Stage::Request;
                    Action::Read(packet)
                },
                Received::End(ended) => {
                    self.ended();
                    Action::End(ended)
                },
            },
            Event::Request(request) => {
                let request = match self.serving.decoded(request, site) {
                    Ok(request) => request,
                    Err(error) => {
                        self.ended();
                        return Action::End(Err(error));
                    },
                };
                match self.serving.requested(request, site) {
                    Requested::Resolve { call_id, config } => {
                        self.pending = Some(config);
                        self.stage = Stage::Egress { call_id };
                        Action::Resolve
                    },
                    Requested::Receive => {
                        self.stage = Stage::Packet;
                        Action::Receive
                    },
                    Requested::End(ended) => {
                        self.ended();
                        Action::End(ended)
                    },
                }
            },
            Event::Egress(egress) => {
                let call_id: u64 = self.call_id();
                if let Err(ended) = self.serving.resolved(call_id, egress, site) {
                    self.ended();
                    return Action::End(Ok(ended));
                }
                match self.pending.take() {
                    Some(config) => {
                        self.stage = Stage::Sent { call_id };
                        Action::Publish(self.serving.publish(config))
                    },
                    None => Action::Receive,
                }
            },
            Event::Sent(sent) => {
                let call_id: u64 = self.call_id();
                if let Err(ended) = self.serving.sent(call_id, sent, site) {
                    self.ended();
                    return Action::End(Ok(ended));
                }
                self.stage = Stage::Applied { call_id };
                Action::AwaitRetired
            },
            Event::Applied(applied) => {
                let call_id: u64 = self.call_id();
                if let Err(error) = self.serving.applied(applied, site) {
                    self.ended();
                    return Action::End(Err(error));
                }
                self.stage = Stage::Acknowledged { call_id };
                Action::Acknowledge { call_id }
            },
            Event::Acknowledged(sent) => {
                if let Err(error) = self.serving.acknowledged(sent, site) {
                    self.ended();
                    return Action::End(Err(error));
                }
                self.stage = Stage::Packet;
                Action::Receive
            },
        }
    }

    fn call_id(&self) -> (r: u64)
        ensures
            match self@.stage {
                Stage::Egress { call_id } => r == call_id,
                Stage::Sent { call_id } => r == call_id,
                Stage::Applied { call_id } => r == call_id,
                Stage::Acknowledged { call_id } => r == call_id,
                _ => r == 0,
            },
    {
        match self.stage {
            Stage::Egress { call_id } => call_id,
            Stage::Sent { call_id } => call_id,
            Stage::Applied { call_id } => call_id,
            Stage::Acknowledged { call_id } => call_id,
            _ => 0,
        }
    }
}

/// Whether these are the events of one session's configuring, what was done after each, and how far it had come
/// before each and after the last.
pub open spec fn configures(
    states: Seq<ConfiguringState>,
    events: Seq<Event>,
    sites: Seq<Site>,
    actions: Seq<Action>,
) -> bool {
    &&& states.len() == events.len() + 1
    &&& sites.len() == events.len()
    &&& actions.len() == events.len()
    &&& states[0] == unconfigured()
    &&& forall|i: int|
        0 <= i < events.len() ==> expected(states[i].stage, events[i]) && configured(
            states[i],
            events[i],
            sites[i],
            states[i + 1],
            #[trigger] actions[i],
        )
}

/// A call is acknowledged only after its configuration was sent to the tun, the tun took it, and the tun said that
/// what stood before it is gone.
pub proof fn law_acknowledged_once_retired(
    states: Seq<ConfiguringState>,
    events: Seq<Event>,
    sites: Seq<Site>,
    actions: Seq<Action>,
    i: int,
)
    requires
        configures(states, events, sites, actions),
        0 <= i < actions.len(),
        actions[i] is Acknowledge,
    ensures
        events[i] == Event::Applied(true),
        i >= 2,
        events[i - 1] == Event::Sent(true),
        states[i - 2].stage == (Stage::Egress { call_id: actions[i]->call_id }),
        states[i - 2].pending matches Some(config) && actions[i - 2] == Action::Publish(applied_of(config)),
{
    assert(configured(states[i], events[i], sites[i], states[i + 1], actions[i]));
    assert(states[i].stage is Applied);
    if i >= 1 {
        assert(configured(states[i - 1], events[i - 1], sites[i - 1], states[i], actions[i - 1]));
        assert(states[i - 1].stage is Sent);
    }
    if i >= 2 {
        assert(configured(states[i - 2], events[i - 2], sites[i - 2], states[i - 1], actions[i - 2]));
    }
}

/// How far a session's configuring has come after `i` events: the configuration at hand may follow the last one, and
/// the last one's generation is no less than any that was published.
proof fn lemma_generations(
    states: Seq<ConfiguringState>,
    events: Seq<Event>,
    sites: Seq<Site>,
    actions: Seq<Action>,
    i: int,
)
    requires
        configures(states, events, sites, actions),
        0 <= i <= actions.len(),
    ensures
        states[i].pending is Some <==> states[i].stage is Egress,
        states[i].pending matches Some(config) ==> refusal(states[i].previous, config) is None,
        forall|j: int|
            0 <= j < i ==> ((#[trigger] actions[j]) matches Action::Publish(applied) ==> (
            states[i].previous matches Some(previous) && applied.upstream_generation
                <= previous.upstream_generation)),
    decreases i,
{
    if i > 0 {
        lemma_generations(states, events, sites, actions, i - 1);
        let last = actions[i - 1];
        assert(configured(states[i - 1], events[i - 1], sites[i - 1], states[i], last));
    }
}

/// The generations of the configurations that a session publishes never fall, and none is zero.
pub proof fn law_generations_never_fall(
    states: Seq<ConfiguringState>,
    events: Seq<Event>,
    sites: Seq<Site>,
    actions: Seq<Action>,
    i: int,
    j: int,
)
    requires
        configures(states, events, sites, actions),
        0 <= i <= j < actions.len(),
        actions[i] is Publish,
        actions[j] is Publish,
    ensures
        actions[i]->Publish_0.upstream_generation != 0,
        actions[i]->Publish_0.upstream_generation <= actions[j]->Publish_0.upstream_generation,
{
    lemma_generations(states, events, sites, actions, i);
    lemma_generations(states, events, sites, actions, j);
}

/// A configuration that may follow the one before it has its egress resolved, is published as it says, and once what it
/// replaced is retired its call is acknowledged, under the number it came with. Then the next is waited for.
pub proof fn law_a_configuration_is_applied_step_by_step(
    before: ConfiguringState,
    event: Event,
    site: Site,
    after: ConfiguringState,
    action: Action,
    call_id: u64,
)
    requires
        configured(before, event, site, after, action),
        expected(before.stage, event),
    ensures
        event is Packet && event->Packet_0 is Ok ==> action == Action::Read(event->Packet_0->Ok_0) && after.stage
            is Request && after.previous == before.previous,
        before.stage == (Stage::Egress { call_id }) && event is Egress && event->Egress_0 is Ok ==> {
            &&& before.pending is Some
            &&& action is Publish
            &&& action->Publish_0.admitting == before.pending->0.admitting
            &&& action->Publish_0.upstream_generation == before.pending->0.upstream_generation
            &&& after.previous == before.pending
            &&& after.pending is None
            &&& after.stage == (Stage::Sent { call_id })
        },
        before.stage == (Stage::Sent { call_id }) && event == Event::Sent(true) ==> action is AwaitRetired
            && after.stage == (Stage::Applied { call_id }) && after.previous == before.previous,
        before.stage == (Stage::Applied { call_id }) && event == Event::Applied(true) ==> action == (
        Action::Acknowledge { call_id }) && after.stage == (Stage::Acknowledged { call_id }) && after.previous
            == before.previous,
        event == Event::Acknowledged(true) ==> action is Receive && after.stage is Packet && after.previous
            == before.previous,
{
}

/// A request for a configuration goes on exactly where the configuration may follow the one before it. Otherwise its
/// call is refused under its own number and serving ends. A cancelled session ends silently, and a cancellation of
/// something that is over changes nothing.
pub proof fn law_what_comes_of_a_request(
    before: ConfiguringState,
    request: Request,
    site: Site,
    after: ConfiguringState,
    action: Action,
)
    requires
        configured(before, Event::Request(Ok(Ok(request))), site, after, action),
    ensures
        after.previous == before.previous,
        request is Config && refusal(before.previous, request->config@) is None ==> {
            &&& action is Resolve
            &&& after.stage == (Stage::Egress { call_id: request->call_id })
            &&& after.pending == Some(request->config@)
        },
        request is Config && refusal(before.previous, request->config@) is Some ==> {
            &&& after.stage is Over
            &&& action is End
            &&& action->End_0 is Ok
            &&& action->End_0->Ok_0 is Refused
            &&& action->End_0->Ok_0->call_id == request->call_id
            &&& action->End_0->Ok_0->error.kind is InvalidData
        },
        request is CancelSession ==> after.stage is Over && action is End && action->End_0 is Ok && action->End_0->Ok_0
            is Silent,
        request is CancelStale ==> action is Receive && after.stage is Packet,
{
    if request is Config && refusal(before.previous, request->config@) is Some {
        let told = action->End_0->Ok_0->error;
        assert(told@.kind == told.kind);
    }
}

/// An app that goes away ends the session silently. Any other failure to read from it ends it with an error of the same
/// kind, and so does a frame that could not be read. A frame that was rejected is answered where it could be told whose
/// it was.
pub proof fn law_what_ends_the_serving(
    before: ConfiguringState,
    error: IoError,
    rejected: Rejected,
    why: String,
    site: Site,
    gone: (ConfiguringState, Action),
    refused: (ConfiguringState, Action),
    unread: (ConfiguringState, Action),
)
    requires
        configured(before, Event::Packet(Err(error)), site, gone.0, gone.1),
        configured(before, Event::Request(Ok(Err(rejected))), site, refused.0, refused.1),
        configured(before, Event::Request(Err(why)), site, unread.0, unread.1),
    ensures
        gone.0.stage is Over,
        gone.1 is End,
        error.kind is UnexpectedEof ==> gone.1->End_0 is Ok && gone.1->End_0->Ok_0 is Silent,
        !(error.kind is UnexpectedEof) ==> gone.1->End_0 is Err && gone.1->End_0->Err_0.kind == error.kind,
        refused.0.stage is Over,
        refused.1 is End,
        rejected.call_id is None ==> refused.1->End_0 == Err::<Ended, IoError>(rejected.error),
        rejected.call_id is Some ==> refused.1->End_0 is Ok && refused.1->End_0->Ok_0 is Refused
            && refused.1->End_0->Ok_0->call_id == rejected.call_id->0,
        unread.0.stage is Over,
        unread.1 is End,
        unread.1->End_0 is Err,
        unread.1->End_0->Err_0.kind is InvalidData,
{
    if !(error.kind is UnexpectedEof) {
        let told = gone.1->End_0->Err_0;
        assert(told@.kind == told.kind);
        assert(error@.kind == error.kind);
    }
    let told = unread.1->End_0->Err_0;
    assert(told@.kind == told.kind);
}

/// A configuration without a usable egress is refused under its number, and so is one that nobody takes any more. One
/// that was taken and then dropped, or could not be acknowledged, ends the session with an error.
pub proof fn law_what_ends_a_configuration(
    before: ConfiguringState,
    event: Event,
    site: Site,
    after: ConfiguringState,
    action: Action,
    call_id: u64,
)
    requires
        configured(before, event, site, after, action),
        expected(before.stage, event),
        ({
            ||| event is Egress && event->Egress_0 is Err && before.stage == (Stage::Egress { call_id })
            ||| event == Event::Sent(false) && before.stage == (Stage::Sent { call_id })
            ||| event == Event::Applied(false)
            ||| event == Event::Acknowledged(false)
        }),
    ensures
        after.stage is Over,
        after.previous == before.previous,
        action is End,
        event is Egress || event is Sent ==> action->End_0 is Ok && action->End_0->Ok_0 is Refused
            && action->End_0->Ok_0->call_id == call_id,
        event is Applied || event is Acknowledged ==> action->End_0 is Err,
{
}

/// Serving begins with no configuration, waiting for a packet. A stage waits for its own event and no other, and none
/// is waited for once serving is over.
pub proof fn law_a_stage_waits_for_its_own_event(stage: Stage, event: Event)
    ensures
        unconfigured().previous is None,
        unconfigured().pending is None,
        unconfigured().stage is Packet,
        expected(stage, event) ==> {
            &&& event is Packet <==> stage is Packet
            &&& event is Request <==> stage is Request
            &&& event is Egress <==> stage is Egress
            &&& event is Sent <==> stage is Sent
            &&& event is Applied <==> stage is Applied
            &&& event is Acknowledged <==> stage is Acknowledged
        },
        stage is Over ==> !expected(stage, event),
{
}

/// A call that is refused is told which it is and why.
pub proof fn law_a_refused_call_is_told_why(call_id: u64, why: Seq<char>)
    ensures
        no_successor(call_id, why).message == "config call "@ + decimal(call_id as nat)
            + " is not a valid successor: "@ + why,
        no_successor(call_id, why).kind is InvalidData,
        no_egress(call_id, why).message == "config call "@ + decimal(call_id as nat) + " has no usable egress: "@ + why,
        no_egress(call_id, why).kind is InvalidData,
        no_successor(call_id, why).attached is None,
        no_egress(call_id, why).attached is None,
{
}

/// A refusal answers the call it is of with a report that names the call.
pub proof fn law_a_refusal_names_its_call(ended: Ended, call_id: u64, error: ErrorState, site: Site)
    requires
        refuses(ended, call_id, error, site),
    ensures
        ended is Refused,
        ended->call_id == call_id,
        ended->error@ == error,
        error.attached is Some ==> ended->report@ == error.attached->0,
        error.attached is None ==> ended->report@.details.len() == 1 && ended->report@.errno == error.errno,
{
}

} // verus!
