//! Errors and the reports made of them, the frames sent to the app, and the settings read from it.
use vstd::arithmetic::power2::pow2;
use vstd::prelude::*;
use vstd::utf8::{encode_utf8, encode_utf8_valid_utf8, is_char_boundary};

use crate::addr::IpAddr;
use crate::octets::{be128, be32, lemma_be_bounds, read_u128, read_u32};
use crate::ra_wire::{first_of, law_a_prefix_starts_at_a_multiple_of_its_size, Ipv6Inet};
use crate::text::{decimal, push_decimal, push_signed_decimal, signed_decimal};

verus! {

/// How many details a report carries.
pub const MAX_ERROR_DETAILS: usize = 32;

/// How many octets one field of a report has before it is cut.
pub const MAX_ERROR_FIELD_BYTES: usize = 4096;

/// What sort of failure an error is.
#[derive(Clone, Copy, Debug, PartialEq, Eq, Structural)]
pub enum ErrorKind {
    AddrInUse,
    AddrNotAvailable,
    AlreadyExists,
    ArgumentListTooLong,
    BrokenPipe,
    ConnectionAborted,
    ConnectionRefused,
    ConnectionReset,
    CrossesDevices,
    Deadlock,
    DirectoryNotEmpty,
    ExecutableFileBusy,
    FileTooLarge,
    FilesystemLoop,
    HostUnreachable,
    InProgress,
    Interrupted,
    InvalidData,
    InvalidFilename,
    InvalidInput,
    IsADirectory,
    NetworkDown,
    NetworkUnreachable,
    NotADirectory,
    NotConnected,
    NotFound,
    NotSeekable,
    Other,
    OutOfMemory,
    PermissionDenied,
    QuotaExceeded,
    ReadOnlyFilesystem,
    ResourceBusy,
    StaleNetworkFileHandle,
    StorageFull,
    TimedOut,
    TooManyLinks,
    Uncategorized,
    UnexpectedEof,
    Unsupported,
    WouldBlock,
    WriteZero,
}

impl ErrorKind {
    pub open spec fn text(self) -> Seq<char> {
        match self {
            ErrorKind::AddrInUse => "AddrInUse"@,
            ErrorKind::AddrNotAvailable => "AddrNotAvailable"@,
            ErrorKind::AlreadyExists => "AlreadyExists"@,
            ErrorKind::ArgumentListTooLong => "ArgumentListTooLong"@,
            ErrorKind::BrokenPipe => "BrokenPipe"@,
            ErrorKind::ConnectionAborted => "ConnectionAborted"@,
            ErrorKind::ConnectionRefused => "ConnectionRefused"@,
            ErrorKind::ConnectionReset => "ConnectionReset"@,
            ErrorKind::CrossesDevices => "CrossesDevices"@,
            ErrorKind::Deadlock => "Deadlock"@,
            ErrorKind::DirectoryNotEmpty => "DirectoryNotEmpty"@,
            ErrorKind::ExecutableFileBusy => "ExecutableFileBusy"@,
            ErrorKind::FileTooLarge => "FileTooLarge"@,
            ErrorKind::FilesystemLoop => "FilesystemLoop"@,
            ErrorKind::HostUnreachable => "HostUnreachable"@,
            ErrorKind::InProgress => "InProgress"@,
            ErrorKind::Interrupted => "Interrupted"@,
            ErrorKind::InvalidData => "InvalidData"@,
            ErrorKind::InvalidFilename => "InvalidFilename"@,
            ErrorKind::InvalidInput => "InvalidInput"@,
            ErrorKind::IsADirectory => "IsADirectory"@,
            ErrorKind::NetworkDown => "NetworkDown"@,
            ErrorKind::NetworkUnreachable => "NetworkUnreachable"@,
            ErrorKind::NotADirectory => "NotADirectory"@,
            ErrorKind::NotConnected => "NotConnected"@,
            ErrorKind::NotFound => "NotFound"@,
            ErrorKind::NotSeekable => "NotSeekable"@,
            ErrorKind::Other => "Other"@,
            ErrorKind::OutOfMemory => "OutOfMemory"@,
            ErrorKind::PermissionDenied => "PermissionDenied"@,
            ErrorKind::QuotaExceeded => "QuotaExceeded"@,
            ErrorKind::ReadOnlyFilesystem => "ReadOnlyFilesystem"@,
            ErrorKind::ResourceBusy => "ResourceBusy"@,
            ErrorKind::StaleNetworkFileHandle => "StaleNetworkFileHandle"@,
            ErrorKind::StorageFull => "StorageFull"@,
            ErrorKind::TimedOut => "TimedOut"@,
            ErrorKind::TooManyLinks => "TooManyLinks"@,
            ErrorKind::Uncategorized => "Uncategorized"@,
            ErrorKind::UnexpectedEof => "UnexpectedEof"@,
            ErrorKind::Unsupported => "Unsupported"@,
            ErrorKind::WouldBlock => "WouldBlock"@,
            ErrorKind::WriteZero => "WriteZero"@,
        }
    }

    /// The name of the kind.
    pub fn name(self) -> (r: &'static str)
        ensures
            r@ == self.text(),
    {
        match self {
            ErrorKind::AddrInUse => "AddrInUse",
            ErrorKind::AddrNotAvailable => "AddrNotAvailable",
            ErrorKind::AlreadyExists => "AlreadyExists",
            ErrorKind::ArgumentListTooLong => "ArgumentListTooLong",
            ErrorKind::BrokenPipe => "BrokenPipe",
            ErrorKind::ConnectionAborted => "ConnectionAborted",
            ErrorKind::ConnectionRefused => "ConnectionRefused",
            ErrorKind::ConnectionReset => "ConnectionReset",
            ErrorKind::CrossesDevices => "CrossesDevices",
            ErrorKind::Deadlock => "Deadlock",
            ErrorKind::DirectoryNotEmpty => "DirectoryNotEmpty",
            ErrorKind::ExecutableFileBusy => "ExecutableFileBusy",
            ErrorKind::FileTooLarge => "FileTooLarge",
            ErrorKind::FilesystemLoop => "FilesystemLoop",
            ErrorKind::HostUnreachable => "HostUnreachable",
            ErrorKind::InProgress => "InProgress",
            ErrorKind::Interrupted => "Interrupted",
            ErrorKind::InvalidData => "InvalidData",
            ErrorKind::InvalidFilename => "InvalidFilename",
            ErrorKind::InvalidInput => "InvalidInput",
            ErrorKind::IsADirectory => "IsADirectory",
            ErrorKind::NetworkDown => "NetworkDown",
            ErrorKind::NetworkUnreachable => "NetworkUnreachable",
            ErrorKind::NotADirectory => "NotADirectory",
            ErrorKind::NotConnected => "NotConnected",
            ErrorKind::NotFound => "NotFound",
            ErrorKind::NotSeekable => "NotSeekable",
            ErrorKind::Other => "Other",
            ErrorKind::OutOfMemory => "OutOfMemory",
            ErrorKind::PermissionDenied => "PermissionDenied",
            ErrorKind::QuotaExceeded => "QuotaExceeded",
            ErrorKind::ReadOnlyFilesystem => "ReadOnlyFilesystem",
            ErrorKind::ResourceBusy => "ResourceBusy",
            ErrorKind::StaleNetworkFileHandle => "StaleNetworkFileHandle",
            ErrorKind::StorageFull => "StorageFull",
            ErrorKind::TimedOut => "TimedOut",
            ErrorKind::TooManyLinks => "TooManyLinks",
            ErrorKind::Uncategorized => "Uncategorized",
            ErrorKind::UnexpectedEof => "UnexpectedEof",
            ErrorKind::Unsupported => "Unsupported",
            ErrorKind::WouldBlock => "WouldBlock",
            ErrorKind::WriteZero => "WriteZero",
        }
    }
}

/// One named value of a report.
#[derive(Clone, Debug, PartialEq, Eq)]
pub struct ErrorDetail {
    pub key: String,
    pub value: String,
}

/// Where in the daemon something was reported.
#[derive(Clone, Debug, PartialEq, Eq)]
pub struct Site {
    pub file: String,
    pub line: u32,
    pub column: u32,
    pub pid: u32,
}

/// What the app is told about a failure.
#[derive(Clone, Debug, PartialEq, Eq)]
pub struct DaemonErrorReport {
    pub context: String,
    pub message: String,
    pub errno: Option<i32>,
    pub kind: String,
    pub file: String,
    pub line: u32,
    pub column: u32,
    pub pid: u32,
    pub details: Vec<ErrorDetail>,
}

/// What a report says.
#[verifier::ext_equal]
pub struct ReportState {
    pub context: Seq<char>,
    pub message: Seq<char>,
    pub errno: Option<i32>,
    pub kind: Seq<char>,
    pub file: Seq<char>,
    pub line: u32,
    pub column: u32,
    pub pid: u32,
    pub details: Seq<(Seq<char>, Seq<char>)>,
}

/// What a list of details says.
pub open spec fn detail_views(details: Seq<ErrorDetail>) -> Seq<(Seq<char>, Seq<char>)> {
    Seq::new(details.len(), |i: int| (details[i].key@, details[i].value@))
}

/// What a list of pairs says.
pub open spec fn pair_views(pairs: Seq<(String, String)>) -> Seq<(Seq<char>, Seq<char>)> {
    Seq::new(pairs.len(), |i: int| (pairs[i].0@, pairs[i].1@))
}

impl View for DaemonErrorReport {
    type V = ReportState;

    open spec fn view(&self) -> ReportState {
        ReportState {
            context: self.context@,
            message: self.message@,
            errno: self.errno,
            kind: self.kind@,
            file: self.file@,
            line: self.line,
            column: self.column,
            pid: self.pid,
            details: detail_views(self.details@),
        }
    }
}

impl DaemonErrorReport {
    /// The same report once more.
    pub fn copied(&self) -> (r: Self)
        ensures
            r@ == self@,
    {
        let mut details: Vec<ErrorDetail> = Vec::new();
        let mut i: usize = 0;
        while i < self.details.len()
            invariant
                i <= self.details@.len(),
                details@.len() == i,
                forall|j: int|
                    0 <= j < i ==> (#[trigger] details@[j]).key@ == self.details@[j].key@ && details@[j].value@
                        == self.details@[j].value@,
            decreases self.details@.len() - i,
        {
            let detail = &self.details[i];
            details.push(ErrorDetail { key: detail.key.clone(), value: detail.value.clone() });
            i += 1;
        }
        let r = DaemonErrorReport {
            context: self.context.clone(),
            message: self.message.clone(),
            errno: self.errno,
            kind: self.kind.clone(),
            file: self.file.clone(),
            line: self.line,
            column: self.column,
            pid: self.pid,
            details,
        };
        assert(r@ =~= self@);
        r
    }
}

/// An error that carries the report made of it.
#[derive(Debug, Clone, PartialEq, Eq)]
pub struct DaemonReportError {
    report: DaemonErrorReport,
}

impl View for DaemonReportError {
    type V = ReportState;

    closed spec fn view(&self) -> ReportState {
        self.report@
    }
}

impl DaemonReportError {
    /// An error that carries a report.
    pub fn new(report: DaemonErrorReport) -> (r: Self)
        ensures
            r@ == report@,
    {
        DaemonReportError { report }
    }

    /// The report.
    pub fn report(&self) -> (r: &DaemonErrorReport)
        ensures
            r@ == self@,
    {
        &self.report
    }
}

/// A failure: its kind, what it says, the system's number for it where there is one, and the report already made
/// of it.
#[derive(Debug, Clone, PartialEq, Eq)]
pub struct IoError {
    pub kind: ErrorKind,
    pub message: String,
    pub errno: Option<i32>,
    pub attached: Option<DaemonReportError>,
}

/// What an error says.
#[verifier::ext_equal]
pub struct ErrorState {
    pub kind: ErrorKind,
    pub message: Seq<char>,
    pub errno: Option<i32>,
    pub attached: Option<ReportState>,
}

impl View for IoError {
    type V = ErrorState;

    open spec fn view(&self) -> ErrorState {
        ErrorState {
            kind: self.kind,
            message: self.message@,
            errno: self.errno,
            attached: match self.attached {
                Some(attached) => Some(attached@),
                None => None,
            },
        }
    }
}

/// A plain error of one kind.
pub open spec fn plain_error(kind: ErrorKind, message: Seq<char>) -> ErrorState {
    ErrorState { kind, message, errno: None, attached: None }
}

impl IoError {
    /// A plain error of one kind.
    pub fn new(kind: ErrorKind, message: String) -> (r: Self)
        ensures
            r@ == plain_error(kind, message@),
    {
        IoError { kind, message, errno: None, attached: None }
    }

    /// A plain error of no particular kind.
    pub fn other(message: &str) -> (r: Self)
        ensures
            r@ == plain_error(ErrorKind::Other, message@),
    {
        IoError::new(ErrorKind::Other, message.to_owned())
    }

    /// What the error says.
    pub fn text(&self) -> (r: &str)
        ensures
            r@ == self@.message,
    {
        self.message.as_str()
    }
}

/// The last place up to `n` where a character begins.
pub open spec fn boundary_up_to(bytes: Seq<u8>, n: int) -> int
    decreases n,
{
    if n <= 0 {
        0
    } else if is_char_boundary(bytes, n) {
        n
    } else {
        boundary_up_to(bytes, n - 1)
    }
}

/// Whether `cut` is a field as a report carries it: whole, or its characters that fit and three dots.
pub open spec fn trims(field: Seq<char>, cut: Seq<char>) -> bool {
    let bytes = encode_utf8(field);
    if bytes.len() <= 4096 {
        cut == field
    } else {
        encode_utf8(cut) == bytes.subrange(0, boundary_up_to(bytes, 4096)) + encode_utf8("..."@)
    }
}

proof fn lemma_encode_concat(a: Seq<char>, b: Seq<char>)
    ensures
        encode_utf8(a + b) == encode_utf8(a) + encode_utf8(b),
    decreases a.len(),
{
    if a.len() == 0 {
        assert(a + b =~= b);
        assert(encode_utf8(a) + encode_utf8(b) =~= encode_utf8(b));
    } else {
        lemma_encode_concat(a.drop_first(), b);
        assert((a + b).drop_first() =~= a.drop_first() + b);
        assert(encode_utf8(a + b) =~= encode_utf8(a) + encode_utf8(b));
    }
}

/// Cuts a field that is too long at a character, and marks the cut.
pub fn trim_error_field(value: String) -> (r: String)
    ensures
        trims(value@, r@),
{
    let bytes = value.as_str().as_bytes();
    if bytes.len() <= MAX_ERROR_FIELD_BYTES {
        return value;
    }
    let mut end: usize = MAX_ERROR_FIELD_BYTES;
    while end > 0 && !value.as_str().is_char_boundary(end)
        invariant
            end <= 4096,
            boundary_up_to(encode_utf8(value@), 4096) == boundary_up_to(encode_utf8(value@), end as int),
        decreases end,
    {
        end -= 1;
    }
    proof {
        encode_utf8_valid_utf8(value@);
    }
    let (head, _) = value.as_str().split_at(end);
    let mut cut = head.to_owned();
    cut.append("...");
    proof {
        lemma_encode_concat(head@, "..."@);
    }
    cut
}

/// Whether `carried` are the details as a report carries them: the first ones, each cut where it is too long.
pub open spec fn details_trim(
    details: Seq<(Seq<char>, Seq<char>)>,
    carried: Seq<(Seq<char>, Seq<char>)>,
) -> bool {
    &&& carried.len() == if details.len() < 32 { details.len() as int } else { 32 }
    &&& forall|i: int|
        0 <= i < carried.len() ==> trims(details[i].0, (#[trigger] carried[i]).0) && trims(
            details[i].1,
            carried[i].1,
        )
}

/// The details that a report carries.
pub fn error_details(details: &Vec<(String, String)>) -> (r: Vec<ErrorDetail>)
    ensures
        details_trim(pair_views(details@), detail_views(r@)),
{
    let mut carried: Vec<ErrorDetail> = Vec::new();
    let mut i: usize = 0;
    while i < details.len() && i < MAX_ERROR_DETAILS
        invariant
            i <= details@.len(),
            i <= 32,
            carried@.len() == i,
            forall|j: int|
                0 <= j < i ==> trims(details@[j].0@, (#[trigger] carried@[j]).key@) && trims(
                    details@[j].1@,
                    carried@[j].value@,
                ),
        decreases details@.len() - i,
    {
        let (key, value) = &details[i];
        carried.push(
            ErrorDetail { key: trim_error_field(key.clone()), value: trim_error_field(value.clone()) },
        );
        i += 1;
    }
    proof {
        let views = detail_views(carried@);
        assert forall|j: int| 0 <= j < views.len() implies trims(
            pair_views(details@)[j].0,
            (#[trigger] views[j]).0,
        ) && trims(pair_views(details@)[j].1, views[j].1) by {
            assert(trims(details@[j].0@, carried@[j].key@));
        }
    }
    carried
}

/// Whether `report` is what is reported of a failure.
pub open spec fn reports(
    report: ReportState,
    context: Seq<char>,
    message: Seq<char>,
    errno: Option<i32>,
    kind: Seq<char>,
    site: Site,
    details: Seq<(Seq<char>, Seq<char>)>,
) -> bool {
    &&& trims(context, report.context)
    &&& trims(message, report.message)
    &&& report.errno == errno
    &&& trims(kind, report.kind)
    &&& trims(site.file@, report.file)
    &&& report.line == site.line
    &&& report.column == site.column
    &&& report.pid == site.pid
    &&& details_trim(details, report.details)
}

fn report(
    context: &str,
    message: &str,
    errno: Option<i32>,
    kind: &str,
    site: &Site,
    details: &Vec<(String, String)>,
) -> (r: DaemonErrorReport)
    ensures
        reports(r@, context@, message@, errno, kind@, *site, pair_views(details@)),
{
    DaemonErrorReport {
        context: trim_error_field(context.to_owned()),
        message: trim_error_field(message.to_owned()),
        errno,
        kind: trim_error_field(kind.to_owned()),
        file: trim_error_field(site.file.clone()),
        line: site.line,
        column: site.column,
        pid: site.pid,
        details: error_details(details),
    }
}

/// Reports a failure that no system call names.
pub fn daemon_error_report(context: &str, message: &str, kind: &str, site: &Site) -> (r: DaemonErrorReport)
    ensures
        reports(r@, context@, message@, None, kind@, *site, Seq::empty()),
{
    let details: Vec<(String, String)> = Vec::new();
    assert(pair_views(details@) =~= Seq::empty());
    report(context, message, None, kind, site, &details)
}

/// Reports a failure that no system call names, with details.
pub fn daemon_error_report_with_details(
    context: &str,
    message: &str,
    kind: &str,
    site: &Site,
    details: &Vec<(String, String)>,
) -> (r: DaemonErrorReport)
    ensures
        reports(r@, context@, message@, None, kind@, *site, pair_views(details@)),
{
    report(context, message, None, kind, site, details)
}

/// The report that an error already carries.
pub fn reported_io_error_report(error: &IoError) -> (r: Option<DaemonErrorReport>)
    ensures
        r is Some == error@.attached is Some,
        r matches Some(report) ==> error@.attached == Some(report@),
{
    match &error.attached {
        Some(attached) => Some(attached.report().copied()),
        None => None,
    }
}

/// Whether `report` is what is reported of an error: the report it carries, else one of its own.
pub open spec fn reports_error(
    report: ReportState,
    context: Seq<char>,
    error: ErrorState,
    site: Site,
    details: Seq<(Seq<char>, Seq<char>)>,
) -> bool {
    match error.attached {
        Some(attached) => report == attached,
        None => reports(report, context, error.message, error.errno, error.kind.text(), site, details),
    }
}

/// Reports an error.
pub fn daemon_io_error_report(context: &str, error: &IoError, site: &Site) -> (r: DaemonErrorReport)
    ensures
        reports_error(r@, context@, error@, *site, Seq::empty()),
{
    let details: Vec<(String, String)> = Vec::new();
    assert(pair_views(details@) =~= Seq::empty());
    daemon_io_error_report_with_details(context, error, site, &details)
}

/// Reports an error, with details.
pub fn daemon_io_error_report_with_details(
    context: &str,
    error: &IoError,
    site: &Site,
    details: &Vec<(String, String)>,
) -> (r: DaemonErrorReport)
    ensures
        reports_error(r@, context@, error@, *site, pair_views(details@)),
{
    if let Some(report) = reported_io_error_report(error) {
        return report;
    }
    report(context, error.text(), error.errno, error.kind.name(), site, details)
}

/// The system's number for an error, from the report it carries where that has one.
pub fn error_errno(error: &IoError) -> (r: Option<i32>)
    ensures
        r == (match error@.attached {
            Some(report) => if report.errno is Some { report.errno } else { error@.errno },
            None => error@.errno,
        }),
{
    if let Some(attached) = &error.attached {
        if let Some(errno) = attached.report().errno {
            return Some(errno);
        }
    }
    error.errno
}

/// Whether `r` is an error with a report of its own: as it was where it had one.
pub open spec fn contextual(
    error: ErrorState,
    r: ErrorState,
    context: Seq<char>,
    site: Site,
    details: Seq<(Seq<char>, Seq<char>)>,
) -> bool {
    if error.attached is Some {
        r == error
    } else {
        &&& r.kind == error.kind
        &&& r.errno is None
        &&& r.attached matches Some(report) && reports_error(report, context, error, site, details)
            && r.message == report.context + ": "@ + report.message
    }
}

/// Errors that can be given the context they happened in.
pub trait IoErrorReportExt: Sized {
    spec fn in_context(
        self,
        r: Self,
        context: Seq<char>,
        site: Site,
        details: Seq<(Seq<char>, Seq<char>)>,
    ) -> bool;

    fn with_report_context(self, context: &str, site: &Site) -> (r: Self)
        ensures
            self.in_context(r, context@, *site, Seq::empty()),
    ;

    fn with_report_context_details(
        self,
        context: &str,
        site: &Site,
        details: &Vec<(String, String)>,
    ) -> (r: Self)
        ensures
            self.in_context(r, context@, *site, pair_views(details@)),
    ;
}

impl IoErrorReportExt for IoError {
    open spec fn in_context(
        self,
        r: Self,
        context: Seq<char>,
        site: Site,
        details: Seq<(Seq<char>, Seq<char>)>,
    ) -> bool {
        contextual(self@, r@, context, site, details)
    }

    fn with_report_context(self, context: &str, site: &Site) -> (r: Self) {
        let details: Vec<(String, String)> = Vec::new();
        assert(pair_views(details@) =~= Seq::empty());
        self.with_report_context_details(context, site, &details)
    }

    fn with_report_context_details(
        self,
        context: &str,
        site: &Site,
        details: &Vec<(String, String)>,
    ) -> (r: Self) {
        if self.attached.is_some() {
            return self;
        }
        let report = daemon_io_error_report_with_details(context, &self, site, details);
        let mut message = report.context.clone();
        message.append(": ");
        message.append(report.message.as_str());
        IoError {
            kind: self.kind,
            message,
            errno: None,
            attached: Some(DaemonReportError::new(report)),
        }
    }
}

/// Results whose errors can be given the context they happened in.
pub trait IoResultReportExt<T>: Sized {
    spec fn in_context(
        self,
        r: Self,
        context: Seq<char>,
        site: Site,
        details: Seq<(Seq<char>, Seq<char>)>,
    ) -> bool;

    fn with_report_context(self, context: &str, site: &Site) -> (r: Self)
        ensures
            self.in_context(r, context@, *site, Seq::empty()),
    ;

    fn with_report_context_details(
        self,
        context: &str,
        site: &Site,
        details: &Vec<(String, String)>,
    ) -> (r: Self)
        ensures
            self.in_context(r, context@, *site, pair_views(details@)),
    ;
}

impl<T> IoResultReportExt<T> for Result<T, IoError> {
    open spec fn in_context(
        self,
        r: Self,
        context: Seq<char>,
        site: Site,
        details: Seq<(Seq<char>, Seq<char>)>,
    ) -> bool {
        match self {
            Ok(value) => r == Ok::<T, IoError>(value),
            Err(error) => r is Err && contextual(error@, r->Err_0@, context, site, details),
        }
    }

    fn with_report_context(self, context: &str, site: &Site) -> (r: Self) {
        match self {
            Ok(value) => Ok(value),
            Err(error) => Err(error.with_report_context(context, site)),
        }
    }

    fn with_report_context_details(
        self,
        context: &str,
        site: &Site,
        details: &Vec<(String, String)>,
    ) -> (r: Self) {
        match self {
            Ok(value) => Ok(value),
            Err(error) => Err(error.with_report_context_details(context, site, details)),
        }
    }
}

/// The first context that an error is given stays: a second one changes nothing, and what is reported of the
/// error later is the report of the first.
pub proof fn law_first_context_stays(
    error: ErrorState,
    once: ErrorState,
    twice: ErrorState,
    report: ReportState,
    first: Seq<char>,
    second: Seq<char>,
    site: Site,
    other: Site,
    details: Seq<(Seq<char>, Seq<char>)>,
)
    requires
        contextual(error, once, first, site, details),
        contextual(once, twice, second, other, Seq::empty()),
        reports_error(report, second, twice, other, Seq::empty()),
    ensures
        twice == once,
        once.attached == Some(report),
{
}

/// A frame's payload, as a reply to a call.
#[derive(Clone, Debug, PartialEq, Eq)]
pub enum ReplyPayload {
    Ack,
    TrafficCounterLines(Vec<String>),
}

/// A frame's payload, as an event of a call. Neighbours and links are encoded messages.
#[derive(Clone, Debug, PartialEq, Eq)]
pub enum EventPayload {
    Ack,
    NeighbourMonitor { neighbour_deltas: Vec<Vec<u8>>, link_topology: Option<Vec<u8>> },
}

/// One frame to the app.
#[allow(inconsistent_fields)]
#[derive(Clone, Debug, PartialEq, Eq)]
pub enum Frame {
    Reply { call_id: u64, payload: ReplyPayload },
    Event { call_id: u64, payload: EventPayload },
    Complete { call_id: u64 },
    Error { call_id: u64, report: DaemonErrorReport },
    NonFatal { call_id: Option<u64>, report: DaemonErrorReport },
}

/// What every frame travels in.
#[derive(Clone, Debug, PartialEq, Eq)]
pub struct DaemonEnvelope {
    pub frame: Frame,
}

/// A call's identifier, which is never zero.
pub fn checked_call_id(id: u64) -> (r: u64)
    requires
        id != 0,
    ensures
        r == id,
{
    id
}

/// Puts a frame in its envelope.
pub fn daemon_envelope(frame: Frame) -> (r: DaemonEnvelope)
    ensures
        r.frame == frame,
{
    DaemonEnvelope { frame }
}

/// A reply to a call.
pub fn reply_frame(id: u64, payload: ReplyPayload) -> (r: DaemonEnvelope)
    requires
        id != 0,
    ensures
        r.frame == (Frame::Reply { call_id: id, payload }),
{
    daemon_envelope(Frame::Reply { call_id: checked_call_id(id), payload })
}

/// An event of a call.
pub fn event_frame(id: u64, payload: EventPayload) -> (r: DaemonEnvelope)
    requires
        id != 0,
    ensures
        r.frame == (Frame::Event { call_id: id, payload }),
{
    daemon_envelope(Frame::Event { call_id: checked_call_id(id), payload })
}

/// Acknowledges a call.
pub fn ack_reply_frame(id: u64) -> (r: DaemonEnvelope)
    requires
        id != 0,
    ensures
        r.frame == (Frame::Reply { call_id: id, payload: ReplyPayload::Ack }),
{
    reply_frame(id, ReplyPayload::Ack)
}

/// The texts of a list.
pub open spec fn text_views(lines: Seq<String>) -> Seq<Seq<char>> {
    Seq::new(lines.len(), |i: int| lines[i]@)
}

/// Answers a call with the lines of the traffic counters.
pub fn traffic_counter_lines_frame(id: u64, lines: &[String]) -> (r: DaemonEnvelope)
    requires
        id != 0,
    ensures
        r.frame matches Frame::Reply { call_id, payload: ReplyPayload::TrafficCounterLines(sent) }
            && call_id == id && text_views(sent@) == text_views(lines@),
{
    let mut sent: Vec<String> = Vec::new();
    let mut i: usize = 0;
    while i < lines.len()
        invariant
            i <= lines@.len(),
            sent@.len() == i,
            forall|j: int| 0 <= j < i ==> (#[trigger] sent@[j])@ == lines@[j]@,
        decreases lines@.len() - i,
    {
        sent.push(lines[i].clone());
        i += 1;
    }
    assert(text_views(sent@) =~= text_views(lines@));
    reply_frame(id, ReplyPayload::TrafficCounterLines(sent))
}

/// Acknowledges a call that goes on.
pub fn ack_event_frame(id: u64) -> (r: DaemonEnvelope)
    requires
        id != 0,
    ensures
        r.frame == (Frame::Event { call_id: id, payload: EventPayload::Ack }),
{
    event_frame(id, EventPayload::Ack)
}

/// Tells a call what changed around the device.
pub fn neighbour_monitor_update_frame(
    id: u64,
    neighbour_deltas: Vec<Vec<u8>>,
    link_topology: Option<Vec<u8>>,
) -> (r: DaemonEnvelope)
    requires
        id != 0,
    ensures
        r.frame == (Frame::Event {
            call_id: id,
            payload: EventPayload::NeighbourMonitor { neighbour_deltas, link_topology },
        }),
{
    event_frame(id, EventPayload::NeighbourMonitor { neighbour_deltas, link_topology })
}

/// Ends a call.
pub fn complete_frame(id: u64) -> (r: DaemonEnvelope)
    requires
        id != 0,
    ensures
        r.frame == (Frame::Complete { call_id: id }),
{
    daemon_envelope(Frame::Complete { call_id: checked_call_id(id) })
}

/// Ends a call with a failure.
pub fn error_frame(id: u64, report: DaemonErrorReport) -> (r: DaemonEnvelope)
    requires
        id != 0,
    ensures
        r.frame == (Frame::Error { call_id: id, report }),
{
    daemon_envelope(Frame::Error { call_id: checked_call_id(id), report })
}

/// Reports a failure that ends no call.
pub fn nonfatal_frame(id: Option<u64>, report: DaemonErrorReport) -> (r: DaemonEnvelope)
    requires
        id != Some(0u64),
    ensures
        r.frame == (Frame::NonFatal { call_id: id, report }),
{
    let call_id = match id {
        Some(id) => Some(checked_call_id(id)),
        None => None,
    };
    daemon_envelope(Frame::NonFatal { call_id, report })
}

/// An error about data that the app sent.
pub fn invalid_data(message: String) -> (r: IoError)
    ensures
        r@ == plain_error(ErrorKind::InvalidData, message@),
{
    IoError::new(ErrorKind::InvalidData, message)
}

/// That a field has a length it cannot have.
pub open spec fn bad_length(name: Seq<char>, length: nat) -> ErrorState {
    plain_error(ErrorKind::InvalidData, "invalid "@ + name + " length "@ + decimal(length))
}

fn invalid_length(name: &str, length: usize) -> (r: IoError)
    ensures
        r@ == bad_length(name@, length as nat),
{
    let mut message = "invalid ".to_owned();
    message.append(name);
    message.append(" length ");
    push_decimal(&mut message, length as u64);
    invalid_data(message)
}

fn read_ipv4(bytes: &[u8], name: &str) -> (r: Result<u32, IoError>)
    ensures
        match r {
            Ok(address) => bytes@.len() == 4 && address == be32(bytes@, 0),
            Err(error) => bytes@.len() != 4 && error@ == bad_length(name@, bytes@.len()),
        },
{
    if bytes.len() == 4 {
        Ok(read_u32(bytes, 0))
    } else {
        Err(invalid_length(name, bytes.len()))
    }
}

fn read_ipv6(bytes: &[u8], name: &str) -> (r: Result<u128, IoError>)
    ensures
        match r {
            Ok(address) => bytes@.len() == 16 && address == be128(bytes@, 0),
            Err(error) => bytes@.len() != 16 && error@ == bad_length(name@, bytes@.len()),
        },
{
    if bytes.len() == 16 {
        Ok(read_u128(bytes, 0))
    } else {
        Err(invalid_length(name, bytes.len()))
    }
}

fn read_ip_address(bytes: &[u8], name: &str) -> (r: Result<IpAddr, IoError>)
    ensures
        match r {
            Ok(IpAddr::V4(address)) => bytes@.len() == 4 && address == be32(bytes@, 0),
            Ok(IpAddr::V6(address)) => bytes@.len() == 16 && address == be128(bytes@, 0),
            Err(error) => bytes@.len() != 4 && bytes@.len() != 16 && error@ == bad_length(
                name@,
                bytes@.len(),
            ),
        },
{
    match bytes.len() {
        4 => Ok(IpAddr::V4(read_u32(bytes, 0))),
        16 => Ok(IpAddr::V6(read_u128(bytes, 0))),
        length => Err(invalid_length(name, length)),
    }
}

/// Reads a hardware address.
pub fn read_mac(bytes: &[u8], name: &str) -> (r: Result<[u8; 6], IoError>)
    ensures
        match r {
            Ok(mac) => bytes@.len() == 6 && mac@ == bytes@,
            Err(error) => bytes@.len() != 6 && error@ == bad_length(name@, bytes@.len()),
        },
{
    if bytes.len() == 6 {
        let mac = [bytes[0], bytes[1], bytes[2], bytes[3], bytes[4], bytes[5]];
        assert(mac@ =~= bytes@);
        Ok(mac)
    } else {
        Err(invalid_length(name, bytes.len()))
    }
}

/// That a prefix is longer than its address.
pub open spec fn bad_prefix(name: Seq<char>, length: u32) -> ErrorState {
    plain_error(ErrorKind::InvalidData, "invalid "@ + name + " "@ + decimal(length as nat))
}

/// Reads the length of a prefix.
pub fn read_prefix_len(prefix_len: u32, max: u32, name: &str) -> (r: Result<u8, IoError>)
    requires
        max <= 255,
    ensures
        match r {
            Ok(length) => prefix_len <= max && length == prefix_len,
            Err(error) => prefix_len > max && error@ == bad_prefix(name@, prefix_len),
        },
{
    if prefix_len > max {
        let mut message = "invalid ".to_owned();
        message.append(name);
        message.append(" ");
        push_decimal(&mut message, prefix_len as u64);
        Err(invalid_data(message))
    } else {
        Ok(prefix_len as u8)
    }
}

/// An address and the length of its prefix, as the app sends them.
#[derive(Clone, Debug, PartialEq, Eq)]
pub struct IpAddressEntry {
    pub address: Vec<u8>,
    pub prefix_length: u32,
}

/// Reads an address and the length of its prefix, which its family bounds.
pub fn read_ip_address_entry(entry: &IpAddressEntry) -> (r: Result<(IpAddr, u8), IoError>)
    ensures
        ({
            let bytes = entry.address@;
            if bytes.len() != 4 && bytes.len() != 16 {
                r is Err && r->Err_0@ == bad_length("static address"@, bytes.len())
            } else if entry.prefix_length > bytes.len() * 8 {
                r is Err && r->Err_0@ == bad_prefix("static address prefix length"@, entry.prefix_length)
            } else {
                &&& r is Ok
                &&& r->Ok_0.1 == entry.prefix_length
                &&& r->Ok_0.0 == (if bytes.len() == 4 {
                    IpAddr::V4(be32(bytes, 0) as u32)
                } else {
                    IpAddr::V6(be128(bytes, 0) as u128)
                })
            }
        }),
{
    let ip = match read_ip_address(entry.address.as_slice(), "static address") {
        Ok(ip) => ip,
        Err(error) => return Err(error),
    };
    let max: u32 = match ip {
        IpAddr::V4(_) => 32,
        IpAddr::V6(_) => 128,
    };
    match read_prefix_len(entry.prefix_length, max, "static address prefix length") {
        Ok(length) => Ok((ip, length)),
        Err(error) => Err(error),
    }
}

/// An IPv6 prefix, as the app sends it.
#[derive(Clone, Debug, PartialEq, Eq)]
pub struct Ipv6Prefix {
    pub address: Vec<u8>,
    pub prefix_length: u32,
}

/// An IPv6 network.
#[derive(Clone, Copy, Debug, PartialEq, Eq, Structural)]
pub struct Ipv6Cidr {
    pub first_address: u128,
    pub network_length: u8,
}

/// What is wrong with a prefix.
pub open spec fn prefix_refusal(prefix: Ipv6Prefix) -> Option<ErrorState> {
    if prefix.address@.len() != 16 {
        Some(bad_length("IPv6 route address"@, prefix.address@.len()))
    } else if prefix.prefix_length > 128 {
        Some(bad_prefix("IPv6 route prefix length"@, prefix.prefix_length))
    } else {
        None
    }
}

/// The network of a prefix.
pub open spec fn network_of(prefix: Ipv6Prefix) -> Ipv6Cidr {
    Ipv6Cidr {
        first_address: first_of(be128(prefix.address@, 0) as u128, prefix.prefix_length as u8) as u128,
        network_length: prefix.prefix_length as u8,
    }
}

/// Reads the network of a route.
pub fn read_ipv6_prefix(prefix: &Ipv6Prefix) -> (r: Result<Ipv6Cidr, IoError>)
    ensures
        match r {
            Ok(network) => prefix_refusal(*prefix) is None && network == network_of(*prefix),
            Err(error) => prefix_refusal(*prefix) == Some(error@),
        },
{
    let address = match read_ipv6(prefix.address.as_slice(), "IPv6 route address") {
        Ok(address) => address,
        Err(error) => return Err(error),
    };
    let network_length = match read_prefix_len(prefix.prefix_length, 128, "IPv6 route prefix length") {
        Ok(length) => length,
        Err(error) => return Err(error),
    };
    match Ipv6Inet::new(address, network_length) {
        Some(inet) => Ok(Ipv6Cidr { first_address: inet.first_address(), network_length }),
        None => Err(invalid_data("IPv6 route".to_owned())),
    }
}

/// A client, as the app sends it.
#[derive(Clone, Debug, PartialEq, Eq)]
pub struct ClientMessage {
    pub mac: Vec<u8>,
    pub ipv4: Vec<Vec<u8>>,
}

/// A client of the hotspot.
#[derive(Clone, Debug, PartialEq, Eq)]
pub struct ClientConfig {
    pub mac: [u8; 6],
    pub ipv4: Vec<u32>,
}

/// What is wrong with the first address from the `i`th on that is not one of IPv4.
pub open spec fn ipv4_refusal(addresses: Seq<Vec<u8>>, i: int) -> Option<ErrorState>
    decreases addresses.len() - i,
{
    if i < 0 || i >= addresses.len() {
        None
    } else if addresses[i]@.len() != 4 {
        Some(bad_length("client IPv4 address"@, addresses[i]@.len()))
    } else {
        ipv4_refusal(addresses, i + 1)
    }
}

/// What is wrong with a client.
pub open spec fn client_refusal(client: ClientMessage) -> Option<ErrorState> {
    if client.mac@.len() != 6 {
        Some(bad_length("client mac"@, client.mac@.len()))
    } else {
        ipv4_refusal(client.ipv4@, 0)
    }
}

/// Whether a client is the one that the app sent.
pub open spec fn is_client(client: ClientConfig, message: ClientMessage) -> bool {
    &&& client.mac@ == message.mac@
    &&& client.ipv4@ == Seq::new(message.ipv4@.len(), |i: int| be32(message.ipv4@[i]@, 0) as u32)
}

/// Reads a client.
pub fn read_client(client: &ClientMessage) -> (r: Result<ClientConfig, IoError>)
    ensures
        match r {
            Ok(read) => client_refusal(*client) is None && is_client(read, *client),
            Err(error) => client_refusal(*client) == Some(error@),
        },
{
    let mac = match read_mac(client.mac.as_slice(), "client mac") {
        Ok(mac) => mac,
        Err(error) => return Err(error),
    };
    let mut ipv4: Vec<u32> = Vec::new();
    let mut i: usize = 0;
    while i < client.ipv4.len()
        invariant
            i <= client.ipv4@.len(),
            client.mac@.len() == 6,
            ipv4_refusal(client.ipv4@, 0) == ipv4_refusal(client.ipv4@, i as int),
            ipv4@ == Seq::new(i as nat, |j: int| be32(client.ipv4@[j]@, 0) as u32),
        decreases client.ipv4@.len() - i,
    {
        let address = match read_ipv4(client.ipv4[i].as_slice(), "client IPv4 address") {
            Ok(address) => address,
            Err(error) => return Err(error),
        };
        ipv4.push(address);
        i += 1;
        assert(ipv4@ =~= Seq::new(i as nat, |j: int| be32(client.ipv4@[j]@, 0) as u32));
    }
    Ok(ClientConfig { mac, ipv4 })
}

/// How what the clients send is masked.
#[derive(Clone, Copy, Debug, PartialEq, Eq, Structural)]
pub enum MasqueradeMode {
    Off,
    Simple,
    Netd,
}

impl MasqueradeMode {
    /// The mode of a number.
    pub open spec fn of(number: i32) -> Option<MasqueradeMode> {
        if number == 0 {
            Some(MasqueradeMode::Off)
        } else if number == 1 {
            Some(MasqueradeMode::Simple)
        } else if number == 2 {
            Some(MasqueradeMode::Netd)
        } else {
            None
        }
    }

    /// The mode of a number.
    pub fn from_number(number: i32) -> (r: Option<MasqueradeMode>)
        ensures
            r == MasqueradeMode::of(number),
    {
        match number {
            0 => Some(MasqueradeMode::Off),
            1 => Some(MasqueradeMode::Simple),
            2 => Some(MasqueradeMode::Netd),
            _ => None,
        }
    }
}

/// A session's IPv6 translation, as the app sends it.
#[derive(Clone, Debug, PartialEq, Eq)]
pub struct Ipv6NatMessage {
    pub prefix_seed: String,
}

/// A session's IPv6 translation.
#[derive(Clone, Copy, Debug, PartialEq, Eq, Structural)]
pub struct Ipv6NatConfig {
    pub gateway: u128,
}

/// A session's settings, as the app sends them.
#[derive(Clone, Debug, PartialEq, Eq)]
pub struct SessionConfigMessage {
    pub downstream: String,
    pub ip_forward: bool,
    pub masquerade: i32,
    pub ipv6_block: bool,
    pub primary_network: Option<u64>,
    pub primary_routes: Vec<Ipv6Prefix>,
    pub fallback_network: Option<u64>,
    pub primary_upstream_interfaces: Vec<String>,
    pub fallback_upstream_interfaces: Vec<String>,
    pub clients: Vec<ClientMessage>,
    pub ipv6_nat: Option<Ipv6NatMessage>,
}

/// A session's settings.
#[derive(Clone, Debug, PartialEq, Eq)]
pub struct SessionConfig {
    pub downstream: String,
    pub reply_mark: u32,
    pub ip_forward: bool,
    pub masquerade: MasqueradeMode,
    pub ipv6_block: bool,
    pub primary_network: Option<u64>,
    pub primary_routes: Vec<Ipv6Cidr>,
    pub fallback_network: Option<u64>,
    pub primary_upstream_interfaces: Vec<String>,
    pub fallback_upstream_interfaces: Vec<String>,
    pub clients: Vec<ClientConfig>,
    pub ipv6_nat: Option<Ipv6NatConfig>,
}

/// What is wrong with the first route from the `i`th on that cannot be read.
pub open spec fn routes_refusal(routes: Seq<Ipv6Prefix>, i: int) -> Option<ErrorState>
    decreases routes.len() - i,
{
    if i < 0 || i >= routes.len() {
        None
    } else if prefix_refusal(routes[i]) is Some {
        prefix_refusal(routes[i])
    } else {
        routes_refusal(routes, i + 1)
    }
}

/// What is wrong with the first client from the `i`th on that cannot be read.
pub open spec fn clients_refusal(clients: Seq<ClientMessage>, i: int) -> Option<ErrorState>
    decreases clients.len() - i,
{
    if i < 0 || i >= clients.len() {
        None
    } else if client_refusal(clients[i]) is Some {
        client_refusal(clients[i])
    } else {
        clients_refusal(clients, i + 1)
    }
}

/// What is wrong with a session's settings: a route, else a client, else the masquerade.
pub open spec fn session_refusal(config: SessionConfigMessage) -> Option<ErrorState> {
    if routes_refusal(config.primary_routes@, 0) is Some {
        routes_refusal(config.primary_routes@, 0)
    } else if clients_refusal(config.clients@, 0) is Some {
        clients_refusal(config.clients@, 0)
    } else if MasqueradeMode::of(config.masquerade) is None {
        Some(
            plain_error(
                ErrorKind::InvalidData,
                "invalid masquerade mode "@ + signed_decimal(config.masquerade as int),
            ),
        )
    } else {
        None
    }
}

/// Network zero is no network.
pub open spec fn chosen_network(network: Option<u64>) -> Option<u64> {
    if network == Some(0u64) {
        None
    } else {
        network
    }
}

/// Whether settings are the ones that the app sent.
pub open spec fn is_session(
    read: SessionConfig,
    config: SessionConfigMessage,
    reply_mark: u32,
    nat_gateway: u128,
) -> bool {
    &&& read.downstream@ == config.downstream@
    &&& read.reply_mark == reply_mark
    &&& read.ip_forward == config.ip_forward
    &&& Some(read.masquerade) == MasqueradeMode::of(config.masquerade)
    &&& read.ipv6_block == config.ipv6_block
    &&& read.primary_network == chosen_network(config.primary_network)
    &&& read.primary_routes@ == Seq::new(
        config.primary_routes@.len(),
        |i: int| network_of(config.primary_routes@[i]),
    )
    &&& read.fallback_network == chosen_network(config.fallback_network)
    &&& read.primary_upstream_interfaces == config.primary_upstream_interfaces
    &&& read.fallback_upstream_interfaces == config.fallback_upstream_interfaces
    &&& read.clients@.len() == config.clients@.len()
    &&& forall|i: int| 0 <= i < read.clients@.len() ==> is_client(#[trigger] read.clients@[i], config.clients@[i])
    &&& read.ipv6_nat == match config.ipv6_nat {
        Some(_) => Some(Ipv6NatConfig { gateway: nat_gateway }),
        None => None,
    }
}

fn read_network(network: Option<u64>) -> (r: Option<u64>)
    ensures
        r == chosen_network(network),
{
    match network {
        Some(0) => None,
        network => network,
    }
}

fn read_routes(routes: &Vec<Ipv6Prefix>) -> (r: Result<Vec<Ipv6Cidr>, IoError>)
    ensures
        match r {
            Ok(networks) => routes_refusal(routes@, 0) is None && networks@ == Seq::new(
                routes@.len(),
                |i: int| network_of(routes@[i]),
            ),
            Err(error) => routes_refusal(routes@, 0) == Some(error@),
        },
{
    let mut networks: Vec<Ipv6Cidr> = Vec::new();
    let mut i: usize = 0;
    while i < routes.len()
        invariant
            i <= routes@.len(),
            routes_refusal(routes@, 0) == routes_refusal(routes@, i as int),
            networks@ == Seq::new(i as nat, |j: int| network_of(routes@[j])),
        decreases routes@.len() - i,
    {
        let network = match read_ipv6_prefix(&routes[i]) {
            Ok(network) => network,
            Err(error) => return Err(error),
        };
        networks.push(network);
        i += 1;
        assert(networks@ =~= Seq::new(i as nat, |j: int| network_of(routes@[j])));
    }
    Ok(networks)
}

fn read_clients(messages: &Vec<ClientMessage>) -> (r: Result<Vec<ClientConfig>, IoError>)
    ensures
        match r {
            Ok(clients) => clients_refusal(messages@, 0) is None && clients@.len() == messages@.len() && forall|
                i: int,
            |
                0 <= i < clients@.len() ==> is_client(#[trigger] clients@[i], messages@[i]),
            Err(error) => clients_refusal(messages@, 0) == Some(error@),
        },
{
    let mut clients: Vec<ClientConfig> = Vec::new();
    let mut i: usize = 0;
    while i < messages.len()
        invariant
            i <= messages@.len(),
            clients_refusal(messages@, 0) == clients_refusal(messages@, i as int),
            clients@.len() == i,
            forall|j: int| 0 <= j < i ==> is_client(#[trigger] clients@[j], messages@[j]),
        decreases messages@.len() - i,
    {
        let client = match read_client(&messages[i]) {
            Ok(client) => client,
            Err(error) => return Err(error),
        };
        clients.push(client);
        i += 1;
    }
    Ok(clients)
}

/// Reads a session's settings. The mark of replies and the gateway of an IPv6 translation are the daemon's own.
pub fn read_session_config(
    config: SessionConfigMessage,
    reply_mark: u32,
    nat_gateway: u128,
) -> (r: Result<SessionConfig, IoError>)
    ensures
        match r {
            Ok(read) => session_refusal(config) is None && is_session(read, config, reply_mark, nat_gateway),
            Err(error) => session_refusal(config) == Some(error@),
        },
{
    let primary_routes = match read_routes(&config.primary_routes) {
        Ok(routes) => routes,
        Err(error) => return Err(error),
    };
    let clients = match read_clients(&config.clients) {
        Ok(clients) => clients,
        Err(error) => return Err(error),
    };
    let ipv6_nat = match &config.ipv6_nat {
        Some(_) => Some(Ipv6NatConfig { gateway: nat_gateway }),
        None => None,
    };
    let masquerade = match MasqueradeMode::from_number(config.masquerade) {
        Some(mode) => mode,
        None => {
            let mut message = "invalid masquerade mode ".to_owned();
            push_signed_decimal(&mut message, config.masquerade);
            return Err(invalid_data(message));
        },
    };
    Ok(
        SessionConfig {
            downstream: config.downstream,
            reply_mark,
            ip_forward: config.ip_forward,
            masquerade,
            ipv6_block: config.ipv6_block,
            primary_network: read_network(config.primary_network),
            primary_routes,
            fallback_network: read_network(config.fallback_network),
            primary_upstream_interfaces: config.primary_upstream_interfaces,
            fallback_upstream_interfaces: config.fallback_upstream_interfaces,
            clients,
            ipv6_nat,
        },
    )
}

/// A text is cut at the last place up to its limit where a character begins, so no character is cut in two.
pub proof fn law_no_character_is_cut(bytes: Seq<u8>, n: int)
    requires
        0 <= n <= bytes.len(),
    ensures
        ({
            let at = boundary_up_to(bytes, n);
            &&& 0 <= at <= n
            &&& at == 0 || is_char_boundary(bytes, at)
            &&& forall|k: int| at < k <= n ==> !#[trigger] is_char_boundary(bytes, k)
        }),
    decreases n,
{
    if n > 0 && !is_char_boundary(bytes, n) {
        law_no_character_is_cut(bytes, n - 1);
    }
}

/// A field of up to 4096 octets is carried as it is. A longer one is carried from its start, up to 4096 octets of it,
/// with three dots for the rest.
pub proof fn law_a_long_field_keeps_its_start(field: Seq<char>, cut: Seq<char>)
    requires
        trims(field, cut),
    ensures
        ({
            let bytes = encode_utf8(field);
            let carried = encode_utf8(cut);
            let dots = encode_utf8("..."@);
            &&& bytes.len() <= 4096 ==> cut == field
            &&& bytes.len() > 4096 ==> {
                let at = carried.len() - dots.len();
                &&& 0 <= at <= 4096
                &&& carried.subrange(0, at) == bytes.subrange(0, at)
                &&& carried.subrange(at, carried.len() as int) == dots
                &&& forall|k: int| at < k <= 4096 ==> !#[trigger] is_char_boundary(bytes, k)
            }
        }),
{
    let bytes = encode_utf8(field);
    let carried = encode_utf8(cut);
    let dots = encode_utf8("..."@);
    if bytes.len() > 4096 {
        law_no_character_is_cut(bytes, 4096);
        let at = boundary_up_to(bytes, 4096);
        assert(carried.subrange(0, at) =~= bytes.subrange(0, at));
        assert(carried.subrange(at, carried.len() as int) =~= dots);
    }
}

/// A report carries the first 32 details in their order, and all of them where there are no more.
pub proof fn law_the_first_details_are_carried(
    details: Seq<(Seq<char>, Seq<char>)>,
    carried: Seq<(Seq<char>, Seq<char>)>,
    i: int,
)
    requires
        details_trim(details, carried),
    ensures
        carried.len() <= 32,
        carried.len() <= details.len(),
        details.len() <= 32 ==> carried.len() == details.len(),
        details.len() > 32 ==> carried.len() == 32,
        0 <= i < carried.len() && encode_utf8(details[i].0).len() <= 4096 ==> carried[i].0 == details[i].0,
        0 <= i < carried.len() && encode_utf8(details[i].1).len() <= 4096 ==> carried[i].1 == details[i].1,
{
    if 0 <= i < carried.len() {
        assert(trims(details[i].0, carried[i].0) && trims(details[i].1, carried[i].1));
    }
}

/// A report says what it is of: the context, the message, the number, the kind and the place are those that it was made
/// with. The report of an error that was reported before is that report, whatever the context now.
pub proof fn law_a_report_says_what_it_is_of(
    report: ReportState,
    context: Seq<char>,
    error: ErrorState,
    site: Site,
    details: Seq<(Seq<char>, Seq<char>)>,
)
    requires
        reports_error(report, context, error, site, details),
    ensures
        error.attached is Some ==> report == error.attached->0,
        error.attached is None ==> {
            &&& encode_utf8(context).len() <= 4096 ==> report.context == context
            &&& encode_utf8(error.message).len() <= 4096 ==> report.message == error.message
            &&& report.errno == error.errno
            &&& encode_utf8(error.kind.text()).len() <= 4096 ==> report.kind == error.kind.text()
            &&& encode_utf8(site.file@).len() <= 4096 ==> report.file == site.file@
            &&& report.line == site.line
            &&& report.column == site.column
            &&& report.pid == site.pid
            &&& details.len() <= 32 ==> report.details.len() == details.len()
        },
{
}

/// An error in a context keeps its kind and carries its report, and its text names the context before the message. An
/// error that has a context already is not changed.
pub proof fn law_a_context_is_put_before_the_message(
    error: ErrorState,
    r: ErrorState,
    context: Seq<char>,
    site: Site,
    details: Seq<(Seq<char>, Seq<char>)>,
)
    requires
        contextual(error, r, context, site, details),
    ensures
        error.attached is Some ==> r == error,
        r.attached is Some,
        r.kind == error.kind,
        error.attached is None ==> r.attached->0.errno == error.errno,
        error.attached is None && encode_utf8(context).len() <= 4096 && encode_utf8(error.message).len() <= 4096
            ==> r.message == context + ": "@ + error.message,
{
}

/// A plain error has its kind and its message and nothing else.
pub proof fn law_a_plain_error_has_no_number(kind: ErrorKind, message: Seq<char>)
    ensures
        plain_error(kind, message).kind == kind,
        plain_error(kind, message).message == message,
        plain_error(kind, message).errno is None,
        plain_error(kind, message).attached is None,
{
}

/// A route is taken exactly where its address has sixteen octets and its prefix is no longer than an address. It is the
/// whole network that the address lies in.
pub proof fn law_a_route_is_a_whole_network(prefix: Ipv6Prefix)
    ensures
        prefix_refusal(prefix) is None <==> prefix.address@.len() == 16 && prefix.prefix_length <= 128,
        prefix_refusal(prefix) is Some ==> prefix_refusal(prefix)->0.kind is InvalidData,
        prefix_refusal(prefix) is None ==> {
            let network = network_of(prefix);
            let size = pow2((128 - prefix.prefix_length) as nat);
            &&& network.network_length == prefix.prefix_length
            &&& (network.first_address as int) % (size as int) == 0
            &&& network.first_address <= be128(prefix.address@, 0) < network.first_address + size
        },
{
    if prefix_refusal(prefix) is None {
        lemma_be_bounds(prefix.address@, 0);
        law_a_prefix_starts_at_a_multiple_of_its_size(
            be128(prefix.address@, 0) as u128,
            prefix.prefix_length as u8,
        );
    }
}

/// A client is taken exactly where its hardware address has six octets and each of its addresses four. Where one does
/// not the first that does not says so.
pub proof fn law_a_client_is_taken_whole(client: ClientMessage)
    ensures
        client_refusal(client) is None <==> client.mac@.len() == 6 && forall|i: int|
            0 <= i < client.ipv4@.len() ==> (#[trigger] client.ipv4@[i])@.len() == 4,
{
    lemma_ipv4_refusal(client.ipv4@, 0);
}

proof fn lemma_ipv4_refusal(addresses: Seq<Vec<u8>>, i: int)
    requires
        0 <= i,
    ensures
        ipv4_refusal(addresses, i) is None <==> forall|k: int|
            i <= k < addresses.len() ==> (#[trigger] addresses[k])@.len() == 4,
    decreases addresses.len() - i,
{
    if i < addresses.len() {
        lemma_ipv4_refusal(addresses, i + 1);
        if addresses[i]@.len() == 4 {
            assert forall|k: int| i <= k < addresses.len() && (forall|k: int|
                i + 1 <= k < addresses.len() ==> (#[trigger] addresses[k])@.len() == 4) implies (
            #[trigger] addresses[k])@.len() == 4 by {}
        }
    }
}

/// A client that was read has the hardware address and the addresses of its message, in their order.
pub proof fn law_a_client_is_read_as_sent(client: ClientConfig, message: ClientMessage, i: int)
    requires
        is_client(client, message),
        0 <= i < message.ipv4@.len(),
    ensures
        client.mac@ == message.mac@,
        client.ipv4@.len() == message.ipv4@.len(),
        client.ipv4@[i] == be32(message.ipv4@[i]@, 0),
{
    lemma_be_bounds(message.ipv4@[i]@, 0);
}

/// There are three ways to masquerade, numbered from zero: off, simple, and through netd. No other number is one.
pub proof fn law_masquerade_modes_are_numbered(number: i32)
    ensures
        MasqueradeMode::of(0) == Some(MasqueradeMode::Off),
        MasqueradeMode::of(1) == Some(MasqueradeMode::Simple),
        MasqueradeMode::of(2) == Some(MasqueradeMode::Netd),
        MasqueradeMode::of(number) is Some <==> 0 <= number <= 2,
{
}

/// A configuration is taken exactly where every route, every client and the way to masquerade is. Of several faults the
/// first route's comes before a client's, and that before the masquerading's.
pub proof fn law_a_configuration_is_taken_whole(config: SessionConfigMessage)
    ensures
        session_refusal(config) is None <==> {
            &&& forall|i: int| 0 <= i < config.primary_routes@.len() ==> prefix_refusal(
                #[trigger] config.primary_routes@[i],
            ) is None
            &&& forall|i: int| 0 <= i < config.clients@.len() ==> client_refusal(#[trigger] config.clients@[i]) is None
            &&& 0 <= config.masquerade <= 2
        },
        session_refusal(config) is Some ==> {
            ||| session_refusal(config) == routes_refusal(config.primary_routes@, 0)
            ||| routes_refusal(config.primary_routes@, 0) is None && session_refusal(config) == clients_refusal(
                config.clients@,
                0,
            )
            ||| routes_refusal(config.primary_routes@, 0) is None && clients_refusal(config.clients@, 0) is None
        },
{
    lemma_routes_refusal(config.primary_routes@, 0);
    lemma_clients_refusal(config.clients@, 0);
}

proof fn lemma_routes_refusal(routes: Seq<Ipv6Prefix>, i: int)
    requires
        0 <= i,
    ensures
        routes_refusal(routes, i) is None <==> forall|k: int|
            i <= k < routes.len() ==> prefix_refusal(#[trigger] routes[k]) is None,
    decreases routes.len() - i,
{
    if i < routes.len() {
        lemma_routes_refusal(routes, i + 1);
    }
}

proof fn lemma_clients_refusal(clients: Seq<ClientMessage>, i: int)
    requires
        0 <= i,
    ensures
        clients_refusal(clients, i) is None <==> forall|k: int|
            i <= k < clients.len() ==> client_refusal(#[trigger] clients[k]) is None,
    decreases clients.len() - i,
{
    if i < clients.len() {
        lemma_clients_refusal(clients, i + 1);
    }
}

/// Of several faulty routes or clients the first one's fault is told.
pub proof fn law_the_first_fault_is_told(routes: Seq<Ipv6Prefix>, clients: Seq<ClientMessage>, i: int)
    requires
        0 <= i,
    ensures
        i < routes.len() && prefix_refusal(routes[i]) is Some && (forall|k: int|
            0 <= k < i ==> prefix_refusal(#[trigger] routes[k]) is None) ==> routes_refusal(routes, 0)
            == prefix_refusal(routes[i]),
        i < clients.len() && client_refusal(clients[i]) is Some && (forall|k: int|
            0 <= k < i ==> client_refusal(#[trigger] clients[k]) is None) ==> clients_refusal(clients, 0)
            == client_refusal(clients[i]),
{
    if i < routes.len() {
        lemma_first_route(routes, 0, i);
    }
    if i < clients.len() {
        lemma_first_client(clients, 0, i);
    }
}

proof fn lemma_first_route(routes: Seq<Ipv6Prefix>, a: int, i: int)
    requires
        0 <= a <= i < routes.len(),
    ensures
        (forall|k: int| a <= k < i ==> prefix_refusal(#[trigger] routes[k]) is None) ==> routes_refusal(routes, a)
            == routes_refusal(routes, i),
    decreases i - a,
{
    if a < i {
        lemma_first_route(routes, a + 1, i);
        assert((forall|k: int| a <= k < i ==> prefix_refusal(#[trigger] routes[k]) is None) ==> prefix_refusal(
            routes[a],
        ) is None);
    }
}

proof fn lemma_first_client(clients: Seq<ClientMessage>, a: int, i: int)
    requires
        0 <= a <= i < clients.len(),
    ensures
        (forall|k: int| a <= k < i ==> client_refusal(#[trigger] clients[k]) is None) ==> clients_refusal(clients, a)
            == clients_refusal(clients, i),
    decreases i - a,
{
    if a < i {
        lemma_first_client(clients, a + 1, i);
        assert((forall|k: int| a <= k < i ==> client_refusal(#[trigger] clients[k]) is None) ==> client_refusal(
            clients[a],
        ) is None);
    }
}

/// A configuration that was read says what its message said. A network numbered zero is none.
pub proof fn law_a_configuration_is_read_as_sent(
    read: SessionConfig,
    config: SessionConfigMessage,
    reply_mark: u32,
    nat_gateway: u128,
    i: int,
)
    requires
        is_session(read, config, reply_mark, nat_gateway),
    ensures
        read.downstream@ == config.downstream@,
        read.reply_mark == reply_mark,
        read.ip_forward == config.ip_forward,
        read.ipv6_block == config.ipv6_block,
        read.masquerade is Off <==> config.masquerade == 0,
        read.masquerade is Simple <==> config.masquerade == 1,
        read.masquerade is Netd <==> config.masquerade == 2,
        read.primary_network is None <==> config.primary_network is None || config.primary_network->0 == 0,
        read.primary_network is Some ==> read.primary_network == config.primary_network,
        read.fallback_network is None <==> config.fallback_network is None || config.fallback_network->0 == 0,
        read.fallback_network is Some ==> read.fallback_network == config.fallback_network,
        read.primary_routes@.len() == config.primary_routes@.len(),
        0 <= i < config.primary_routes@.len() ==> read.primary_routes@[i] == network_of(config.primary_routes@[i]),
        read.primary_upstream_interfaces == config.primary_upstream_interfaces,
        read.fallback_upstream_interfaces == config.fallback_upstream_interfaces,
        read.clients@.len() == config.clients@.len(),
        0 <= i < config.clients@.len() ==> read.clients@[i].mac@ == config.clients@[i].mac@,
        0 <= i < config.clients@.len() ==> read.clients@[i].ipv4@.len() == config.clients@[i].ipv4@.len(),
        read.ipv6_nat is Some <==> config.ipv6_nat is Some,
        read.ipv6_nat is Some ==> read.ipv6_nat->0.gateway == nat_gateway,
{
    if 0 <= i < config.clients@.len() {
        assert(is_client(read.clients@[i], config.clients@[i]));
    }
}

/// A length or a prefix that is wrong is told with its name and with what it is.
pub proof fn law_what_is_wrong_is_told_by_name(name: Seq<char>, length: nat, prefix: u32)
    ensures
        bad_length(name, length).kind is InvalidData,
        bad_length(name, length).message == "invalid "@ + name + " length "@ + decimal(length),
        bad_prefix(name, prefix).kind is InvalidData,
        bad_prefix(name, prefix).message == "invalid "@ + name + " "@ + decimal(prefix as nat),
{
}

/// A report and an error are seen as they are, field by field, with every detail in its place.
pub proof fn law_an_error_is_seen_as_it_is(report: DaemonErrorReport, error: IoError, i: int)
    ensures
        report@.context == report.context@,
        report@.message == report.message@,
        report@.errno == report.errno,
        report@.kind == report.kind@,
        report@.file == report.file@,
        report@.line == report.line,
        report@.column == report.column,
        report@.pid == report.pid,
        report@.details.len() == report.details@.len(),
        0 <= i < report.details@.len() ==> report@.details[i] == (report.details@[i].key@, report.details@[i].value@),
        error@.kind == error.kind,
        error@.message == error.message@,
        error@.errno == error.errno,
        error@.attached is Some <==> error.attached is Some,
        error.attached is Some ==> error@.attached->0 == error.attached->0@,
{
}

/// Details that are given as pairs are seen in their order, each name with its own value.
pub proof fn law_pairs_are_seen_in_order(pairs: Seq<(String, String)>, lines: Seq<String>, i: int)
    ensures
        pair_views(pairs).len() == pairs.len(),
        0 <= i < pairs.len() ==> pair_views(pairs)[i] == (pairs[i].0@, pairs[i].1@),
        text_views(lines).len() == lines.len(),
        0 <= i < lines.len() ==> text_views(lines)[i] == lines[i]@,
{
}

/// Every kind of error is told by its own name.
pub proof fn law_kinds_are_told_by_name()
    ensures
        ErrorKind::AddrInUse.text() == "AddrInUse"@,
        ErrorKind::AddrNotAvailable.text() == "AddrNotAvailable"@,
        ErrorKind::AlreadyExists.text() == "AlreadyExists"@,
        ErrorKind::ArgumentListTooLong.text() == "ArgumentListTooLong"@,
        ErrorKind::BrokenPipe.text() == "BrokenPipe"@,
        ErrorKind::ConnectionAborted.text() == "ConnectionAborted"@,
        ErrorKind::ConnectionRefused.text() == "ConnectionRefused"@,
        ErrorKind::ConnectionReset.text() == "ConnectionReset"@,
        ErrorKind::CrossesDevices.text() == "CrossesDevices"@,
        ErrorKind::Deadlock.text() == "Deadlock"@,
        ErrorKind::DirectoryNotEmpty.text() == "DirectoryNotEmpty"@,
        ErrorKind::ExecutableFileBusy.text() == "ExecutableFileBusy"@,
        ErrorKind::FileTooLarge.text() == "FileTooLarge"@,
        ErrorKind::FilesystemLoop.text() == "FilesystemLoop"@,
        ErrorKind::HostUnreachable.text() == "HostUnreachable"@,
        ErrorKind::InProgress.text() == "InProgress"@,
        ErrorKind::Interrupted.text() == "Interrupted"@,
        ErrorKind::InvalidData.text() == "InvalidData"@,
        ErrorKind::InvalidFilename.text() == "InvalidFilename"@,
        ErrorKind::InvalidInput.text() == "InvalidInput"@,
        ErrorKind::IsADirectory.text() == "IsADirectory"@,
        ErrorKind::NetworkDown.text() == "NetworkDown"@,
        ErrorKind::NetworkUnreachable.text() == "NetworkUnreachable"@,
        ErrorKind::NotADirectory.text() == "NotADirectory"@,
        ErrorKind::NotConnected.text() == "NotConnected"@,
        ErrorKind::NotFound.text() == "NotFound"@,
        ErrorKind::NotSeekable.text() == "NotSeekable"@,
        ErrorKind::Other.text() == "Other"@,
        ErrorKind::OutOfMemory.text() == "OutOfMemory"@,
        ErrorKind::PermissionDenied.text() == "PermissionDenied"@,
        ErrorKind::QuotaExceeded.text() == "QuotaExceeded"@,
        ErrorKind::ReadOnlyFilesystem.text() == "ReadOnlyFilesystem"@,
        ErrorKind::ResourceBusy.text() == "ResourceBusy"@,
        ErrorKind::StaleNetworkFileHandle.text() == "StaleNetworkFileHandle"@,
        ErrorKind::StorageFull.text() == "StorageFull"@,
        ErrorKind::TimedOut.text() == "TimedOut"@,
        ErrorKind::TooManyLinks.text() == "TooManyLinks"@,
        ErrorKind::Uncategorized.text() == "Uncategorized"@,
        ErrorKind::UnexpectedEof.text() == "UnexpectedEof"@,
        ErrorKind::Unsupported.text() == "Unsupported"@,
        ErrorKind::WouldBlock.text() == "WouldBlock"@,
        ErrorKind::WriteZero.text() == "WriteZero"@,
{
}

} // verus!
