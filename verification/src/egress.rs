//! What the upstream's sockets say beside their payload: hop limits and errors.
use vstd::prelude::*;

use crate::addr::{IpAddr, SocketAddr};
use crate::echo::{Fragmentation, LocalError};
use crate::octets::push_range;
use crate::protocol::{plain_error, ErrorKind, ErrorState, IoError};

verus! {

/// The value that has IPv4 packets cut as needed, whatever the path's limit is thought to be.
pub const IP_PMTUDISC_OMIT: i32 = 5;

/// The value that has IPv4 packets never cut.
///
/// Reads `libc::IP_PMTUDISC_DO`, which is 2.
#[verifier::external_body]
fn ip_pmtudisc_do() -> (r: i32)
    ensures
        r == 2,
{
    libc::IP_PMTUDISC_DO
}

/// What the socket option for cutting IPv4 packets is set to.
pub fn mtu_discover(fragmentation: Fragmentation) -> (r: i32)
    ensures
        r == (match fragmentation {
            Fragmentation::Prohibited => 2i32,
            Fragmentation::Permitted => 5,
        }),
{
    match fragmentation {
        Fragmentation::Prohibited => ip_pmtudisc_do(),
        Fragmentation::Permitted => IP_PMTUDISC_OMIT,
    }
}

/// An error that a socket queued.
#[derive(Clone, Copy, Debug, PartialEq, Eq, Structural)]
pub struct SocketError {
    pub errno: u32,
    pub origin: u8,
    pub message_type: u8,
    pub code: u8,
    pub info: u32,
}

/// One piece of what came beside a message.
#[derive(Clone, Copy, Debug, PartialEq, Eq, Structural)]
pub enum Control {
    Ipv4Ttl(i32),
    Ipv6HopLimit(i32),
    Ipv4Error(SocketError, Option<u32>),
    Ipv6Error(SocketError, Option<u128>),
    Other,
}

/// A number that fits in an octet.
pub open spec fn octet(value: i32) -> Option<u8> {
    if 0 <= value <= 255 {
        Some(value as u8)
    } else {
        None
    }
}

fn to_octet(value: i32) -> (r: Option<u8>)
    ensures
        r == octet(value),
{
    if value >= 0 && value <= 255 {
        Some(value as u8)
    } else {
        None
    }
}

/// The hop limit that the last of the first `n` pieces to name one names.
pub open spec fn hop_limit(controls: Seq<Control>, n: int) -> Option<u8>
    decreases n,
{
    if n <= 0 {
        None
    } else {
        match controls[n - 1] {
            Control::Ipv4Ttl(value) => octet(value),
            Control::Ipv6HopLimit(value) => octet(value),
            _ => hop_limit(controls, n - 1),
        }
    }
}

/// The error that the last of the first `n` pieces to carry one carries, and who sent it.
pub open spec fn queued_error(controls: Seq<Control>, n: int) -> Option<(SocketError, Option<IpAddr>)>
    decreases n,
{
    if n <= 0 {
        None
    } else {
        match controls[n - 1] {
            Control::Ipv4Error(error, offender) => Some(
                (
                    error,
                    match offender {
                        Some(address) => Some(IpAddr::V4(address)),
                        None => None,
                    },
                ),
            ),
            Control::Ipv6Error(error, offender) => Some(
                (
                    error,
                    match offender {
                        Some(address) => Some(IpAddr::V6(address)),
                        None => None,
                    },
                ),
            ),
            _ => queued_error(controls, n - 1),
        }
    }
}

fn read_controls(controls: &Vec<Control>) -> (r: (Option<u8>, Option<(SocketError, Option<IpAddr>)>))
    ensures
        r.0 == hop_limit(controls@, controls@.len() as int),
        r.1 == queued_error(controls@, controls@.len() as int),
{
    let mut hops: Option<u8> = None;
    let mut entry: Option<(SocketError, Option<IpAddr>)> = None;
    let mut i: usize = 0;
    while i < controls.len()
        invariant
            i <= controls@.len(),
            hops == hop_limit(controls@, i as int),
            entry == queued_error(controls@, i as int),
        decreases controls@.len() - i,
    {
        match controls[i] {
            Control::Ipv4Ttl(value) => hops = to_octet(value),
            Control::Ipv6HopLimit(value) => hops = to_octet(value),
            Control::Ipv4Error(error, offender) => {
                let remote = match offender {
                    Some(address) => Some(IpAddr::V4(address)),
                    None => None,
                };
                entry = Some((error, remote));
            },
            Control::Ipv6Error(error, offender) => {
                let remote = match offender {
                    Some(address) => Some(IpAddr::V6(address)),
                    None => None,
                };
                entry = Some((error, remote));
            },
            Control::Other => {},
        }
        i += 1;
    }
    (hops, entry)
}

/// That what came beside a message could not be read.
pub open spec fn unreadable(why: Seq<char>) -> ErrorState {
    plain_error(ErrorKind::Other, "failed to read ancillary data: "@ + why)
}

fn ancillary(why: &String) -> (r: IoError)
    ensures
        r@ == unreadable(why@),
{
    let mut message = "failed to read ancillary data: ".to_owned();
    message.append(why.as_str());
    IoError::new(ErrorKind::Other, message)
}

/// A message of the upstream: how long it is, where it came from, and the hops it had left.
#[derive(Clone, Copy, Debug, PartialEq, Eq, Structural)]
pub struct Received {
    pub bytes: usize,
    pub source: SocketAddr,
    pub hop_limit: u8,
}

/// Puts together what is known of a message. One that does not say where it came from or how many hops it had
/// left is no message.
pub fn receive(
    bytes: usize,
    source: Option<SocketAddr>,
    controls: Result<Vec<Control>, String>,
) -> (r: Result<Received, IoError>)
    ensures
        match controls {
            Err(why) => r is Err && r->Err_0@ == unreadable(why@),
            Ok(controls) => match (source, hop_limit(controls@, controls@.len() as int)) {
                (None, _) => r is Err && r->Err_0@ == plain_error(
                    ErrorKind::Other,
                    "reply carried no source address"@,
                ),
                (Some(_), None) => r is Err && r->Err_0@ == plain_error(
                    ErrorKind::Other,
                    "reply carried no hop metadata"@,
                ),
                (Some(source), Some(hop_limit)) => r == Ok::<Received, IoError>(
                    Received { bytes, source, hop_limit },
                ),
            },
        },
{
    let controls = match controls {
        Ok(controls) => controls,
        Err(why) => return Err(ancillary(&why)),
    };
    let (hops, _) = read_controls(&controls);
    let source = match source {
        Some(source) => source,
        None => return Err(IoError::other("reply carried no source address")),
    };
    match hops {
        Some(hop_limit) => Ok(Received { bytes, source, hop_limit }),
        None => Err(IoError::other("reply carried no hop metadata")),
    }
}

/// An error that somebody on the way sent about a message.
#[derive(Debug, PartialEq, Eq)]
pub struct Reported {
    pub remote: IpAddr,
    pub destination: Option<SocketAddr>,
    pub hop_limit: u8,
    pub message_type: u8,
    pub code: u8,
    pub info: u32,
    pub quoted: Vec<u8>,
}

/// What such an error says.
#[verifier::ext_equal]
pub struct ReportedState {
    pub remote: IpAddr,
    pub destination: Option<SocketAddr>,
    pub hop_limit: u8,
    pub message_type: u8,
    pub code: u8,
    pub info: u32,
    pub quoted: Seq<u8>,
}

impl View for Reported {
    type V = ReportedState;

    open spec fn view(&self) -> ReportedState {
        ReportedState {
            remote: self.remote,
            destination: self.destination,
            hop_limit: self.hop_limit,
            message_type: self.message_type,
            code: self.code,
            info: self.info,
            quoted: self.quoted@,
        }
    }
}

/// One message of an error queue.
#[derive(Debug, PartialEq, Eq)]
pub enum Drained {
    /// The system's own error about a send.
    Local(LocalError),
    /// An error that somebody on the way sent.
    Remote(Reported),
    /// Neither of them.
    Neither,
}

/// One message of an error queue.
#[verifier::ext_equal]
pub enum DrainedState {
    Local(LocalError),
    Remote(ReportedState),
    Neither,
}

impl View for Drained {
    type V = DrainedState;

    open spec fn view(&self) -> DrainedState {
        match self {
            Drained::Local(error) => DrainedState::Local(*error),
            Drained::Remote(reported) => DrainedState::Remote(reported@),
            Drained::Neither => DrainedState::Neither,
        }
    }
}

/// The origin of the system's own errors.
///
/// Reads `libc::SO_EE_ORIGIN_LOCAL`, which is 1.
#[verifier::external_body]
fn so_ee_origin_local() -> (r: u8)
    ensures
        r == 1,
{
    libc::SO_EE_ORIGIN_LOCAL
}

/// What a message of an error queue is. It quotes what is in the buffer, up to the message's length.
pub open spec fn drained(
    quote: Seq<u8>,
    bytes: nat,
    destination: Option<SocketAddr>,
    controls: Seq<Control>,
) -> DrainedState {
    let quoted = if bytes < quote.len() {
        quote.subrange(0, bytes as int)
    } else {
        quote
    };
    match queued_error(controls, controls.len() as int) {
        None => DrainedState::Neither,
        Some((error, offender)) => if error.origin == 1 {
            DrainedState::Local(LocalError { errno: error.errno as i32, info: error.info })
        } else {
            match (offender, hop_limit(controls, controls.len() as int)) {
                (Some(remote), Some(hop_limit)) => DrainedState::Remote(
                    ReportedState {
                        remote,
                        destination,
                        hop_limit,
                        message_type: error.message_type,
                        code: error.code,
                        info: error.info,
                        quoted,
                    },
                ),
                _ => DrainedState::Neither,
            }
        },
    }
}

/// A message of an error queue as it was read: its length, where what it is about was to go, and what came beside
/// it.
#[derive(Debug)]
pub struct QueueMessage {
    pub bytes: usize,
    pub destination: Option<SocketAddr>,
    pub controls: Result<Vec<Control>, String>,
}

/// Tells what a read of an error queue gave, with the buffer that it quotes in. A queue that had nothing to give
/// gives nothing.
pub fn next(
    read: Result<Option<QueueMessage>, IoError>,
    quote: &[u8],
) -> (r: Result<Option<Drained>, IoError>)
    ensures
        match read {
            Err(error) => r == Err::<Option<Drained>, IoError>(error),
            Ok(None) => r == Ok::<Option<Drained>, IoError>(None),
            Ok(Some(message)) => match message.controls {
                Err(why) => r is Err && r->Err_0@ == unreadable(why@),
                Ok(controls) => r matches Ok(Some(told)) && told@ == drained(
                    quote@,
                    message.bytes as nat,
                    message.destination,
                    controls@,
                ),
            },
        },
{
    let message = match read {
        Ok(Some(message)) => message,
        Ok(None) => return Ok(None),
        Err(error) => return Err(error),
    };
    let controls = match message.controls {
        Ok(controls) => controls,
        Err(why) => return Err(ancillary(&why)),
    };
    let (hops, entry) = read_controls(&controls);
    let (error, offender) = match entry {
        Some(entry) => entry,
        None => return Ok(Some(Drained::Neither)),
    };
    if error.origin == so_ee_origin_local() {
        return Ok(Some(Drained::Local(LocalError { errno: error.errno as i32, info: error.info })));
    }
    let (remote, hop_limit) = match (offender, hops) {
        (Some(remote), Some(hop_limit)) => (remote, hop_limit),
        _ => return Ok(Some(Drained::Neither)),
    };
    let end: usize = if message.bytes < quote.len() {
        message.bytes
    } else {
        quote.len()
    };
    let mut quoted: Vec<u8> = Vec::new();
    push_range(&mut quoted, quote, 0, end);
    assert(quoted@ =~= if message.bytes < quote@.len() {
        quote@.subrange(0, message.bytes as int)
    } else {
        quote@
    });
    Ok(
        Some(
            Drained::Remote(
                Reported {
                    remote,
                    destination: message.destination,
                    hop_limit,
                    message_type: error.message_type,
                    code: error.code,
                    info: error.info,
                    quoted,
                },
            ),
        ),
    )
}

/// The first of the system's own errors among the first `n` messages.
pub open spec fn first_local(messages: Seq<DrainedState>, n: int) -> Option<LocalError>
    decreases n,
{
    if n <= 0 {
        None
    } else {
        match first_local(messages, n - 1) {
            Some(error) => Some(error),
            None => match messages[n - 1] {
                DrainedState::Local(error) => Some(error),
                _ => None,
            },
        }
    }
}

/// Keeps the first of the system's own errors while a queue is drained.
pub fn keep_local(local: Option<LocalError>, message: &Drained) -> (r: Option<LocalError>)
    ensures
        r == (match local {
            Some(error) => Some(error),
            None => match message@ {
                DrainedState::Local(error) => Some(error),
                _ => None,
            },
        }),
{
    match local {
        Some(error) => Some(error),
        None => match message {
            Drained::Local(error) => Some(*error),
            _ => None,
        },
    }
}

/// Keeping one message after the other comes to the first of the system's own errors, and it stays it.
pub proof fn law_first_local_error_stays(messages: Seq<DrainedState>, more: DrainedState)
    ensures
        first_local(messages.push(more), messages.len() as int + 1) == match first_local(
            messages,
            messages.len() as int,
        ) {
            Some(error) => Some(error),
            None => match more {
                DrainedState::Local(error) => Some(error),
                _ => None,
            },
        },
{
    lemma_first_local(messages, more, messages.len() as int);
}

proof fn lemma_first_local(messages: Seq<DrainedState>, more: DrainedState, n: int)
    requires
        n <= messages.len(),
    ensures
        first_local(messages.push(more), n) == first_local(messages, n),
    decreases n,
{
    if n > 0 {
        lemma_first_local(messages, more, n - 1);
        assert(messages.push(more)[n - 1] == messages[n - 1]);
    }
}

/// How far a connection has come.
#[derive(Debug)]
pub enum Connecting {
    Connected,
    /// It is settled once the socket can be written.
    Settling,
    Failed(IoError),
}

/// The number of the error that says a connection is under way.
///
/// Reads `libc::EINPROGRESS`, which is 115 on the machines that Android runs on.
#[verifier::external_body]
fn einprogress() -> (r: i32)
    ensures
        r == 115,
{
    libc::EINPROGRESS
}

/// Tells how far a connection has come after it was begun.
pub fn connecting(begun: Result<(), IoError>) -> (r: Connecting)
    ensures
        match begun {
            Ok(_) => r is Connected,
            Err(error) => if error.kind is WouldBlock || error.errno == Some(115i32) {
                r is Settling
            } else {
                r == Connecting::Failed(error)
            },
        },
{
    match begun {
        Ok(_) => Connecting::Connected,
        Err(error) => {
            let under_way = match error.errno {
                Some(errno) => errno == einprogress(),
                None => false,
            };
            match error.kind {
                ErrorKind::WouldBlock => Connecting::Settling,
                _ => if under_way {
                    Connecting::Settling
                } else {
                    Connecting::Failed(error)
                },
            }
        },
    }
}

proof fn lemma_no_error_since(controls: Seq<Control>, i: int, n: int)
    requires
        0 <= i <= n,
        forall|k: int| i <= k < n ==> !(#[trigger] controls[k] is Ipv4Error) && !(controls[k] is Ipv6Error),
    ensures
        queued_error(controls, n) == queued_error(controls, i),
    decreases n,
{
    if i < n {
        lemma_no_error_since(controls, i, n - 1);
        assert(!(controls[n - 1] is Ipv4Error));
    }
}

proof fn lemma_no_hops_since(controls: Seq<Control>, i: int, n: int)
    requires
        0 <= i <= n,
        forall|k: int| i <= k < n ==> !(#[trigger] controls[k] is Ipv4Ttl) && !(controls[k] is Ipv6HopLimit),
    ensures
        hop_limit(controls, n) == hop_limit(controls, i),
    decreases n,
{
    if i < n {
        lemma_no_hops_since(controls, i, n - 1);
        assert(!(controls[n - 1] is Ipv4Ttl));
    }
}

/// A message has the hops left that the last piece about them says, of either family, where that is a number that a
/// hop limit can be. It has none where no piece says or the last says another.
pub proof fn law_the_last_word_on_hops_counts(controls: Seq<Control>, h: int, hops: i32)
    requires
        0 <= h < controls.len(),
        controls[h] == Control::Ipv4Ttl(hops) || controls[h] == Control::Ipv6HopLimit(hops),
        forall|k: int|
            h < k < controls.len() ==> !(#[trigger] controls[k] is Ipv4Ttl) && !(controls[k] is Ipv6HopLimit),
    ensures
        0 <= hops <= 255 ==> hop_limit(controls, controls.len() as int) is Some && hop_limit(
            controls,
            controls.len() as int,
        )->0 == hops,
        hops < 0 || hops > 255 ==> hop_limit(controls, controls.len() as int) is None,
{
    lemma_no_hops_since(controls, h + 1, controls.len() as int);
}

/// A message that no piece says any hops of has none.
pub proof fn law_no_word_on_hops(controls: Seq<Control>)
    requires
        forall|k: int|
            0 <= k < controls.len() ==> !(#[trigger] controls[k] is Ipv4Ttl) && !(controls[k] is Ipv6HopLimit),
    ensures
        hop_limit(controls, controls.len() as int) is None,
{
    lemma_no_hops_since(controls, 0, controls.len() as int);
}

/// An error that somebody on the way sent is told with its sender's address in the sender's own family, with the hops
/// that it had left, with its type, code and info, and with the first octets of what it quotes. Both families are
/// told alike, wherever among the pieces the error and the hops stand.
pub proof fn law_a_report_names_its_sender(
    quote: Seq<u8>,
    bytes: nat,
    destination: Option<SocketAddr>,
    controls: Seq<Control>,
    i: int,
    error: SocketError,
    offender: IpAddr,
    h: int,
    hops: i32,
)
    requires
        0 <= i < controls.len(),
        controls[i] == (match offender {
            IpAddr::V4(address) => Control::Ipv4Error(error, Some(address)),
            IpAddr::V6(address) => Control::Ipv6Error(error, Some(address)),
        }),
        forall|k: int|
            i < k < controls.len() ==> !(#[trigger] controls[k] is Ipv4Error) && !(controls[k] is Ipv6Error),
        error.origin != 1,
        0 <= h < controls.len(),
        controls[h] == Control::Ipv4Ttl(hops) || controls[h] == Control::Ipv6HopLimit(hops),
        forall|k: int|
            h < k < controls.len() ==> !(#[trigger] controls[k] is Ipv4Ttl) && !(controls[k] is Ipv6HopLimit),
        0 <= hops <= 255,
    ensures
        drained(quote, bytes, destination, controls) is Remote,
        ({
            let told = drained(quote, bytes, destination, controls)->Remote_0;
            &&& told.remote == offender
            &&& told.destination == destination
            &&& told.hop_limit == hops
            &&& told.message_type == error.message_type
            &&& told.code == error.code
            &&& told.info == error.info
            &&& told.quoted.len() <= bytes
            &&& told.quoted.len() == bytes || told.quoted.len() == quote.len()
            &&& told.quoted.len() <= quote.len()
            &&& forall|k: int| 0 <= k < told.quoted.len() ==> #[trigger] told.quoted[k] == quote[k]
        }),
{
    lemma_no_error_since(controls, i + 1, controls.len() as int);
    law_the_last_word_on_hops_counts(controls, h, hops);
}

/// The system's own error about a send is told with its number and its info, whoever is named beside it and whether
/// or not any hops are.
pub proof fn law_the_own_error_is_told(
    quote: Seq<u8>,
    bytes: nat,
    destination: Option<SocketAddr>,
    controls: Seq<Control>,
    i: int,
    error: SocketError,
)
    requires
        0 <= i < controls.len(),
        match controls[i] {
            Control::Ipv4Error(own, _) => own == error,
            Control::Ipv6Error(own, _) => own == error,
            _ => false,
        },
        forall|k: int|
            i < k < controls.len() ==> !(#[trigger] controls[k] is Ipv4Error) && !(controls[k] is Ipv6Error),
        error.origin == 1,
        error.errno <= i32::MAX,
    ensures
        drained(quote, bytes, destination, controls) is Local,
        drained(quote, bytes, destination, controls)->Local_0.errno == error.errno,
        drained(quote, bytes, destination, controls)->Local_0.info == error.info,
{
    lemma_no_error_since(controls, i + 1, controls.len() as int);
}

/// A message without an error tells nothing, and neither does one whose error does not say who sent it, or comes with
/// no hops that could be left.
pub proof fn law_what_tells_nothing(
    quote: Seq<u8>,
    bytes: nat,
    destination: Option<SocketAddr>,
    controls: Seq<Control>,
    i: int,
)
    requires
        ({
            ||| forall|k: int|
                0 <= k < controls.len() ==> !(#[trigger] controls[k] is Ipv4Error) && !(controls[k] is Ipv6Error)
            ||| {
                &&& 0 <= i < controls.len()
                &&& match controls[i] {
                    Control::Ipv4Error(error, None) => error.origin != 1,
                    Control::Ipv6Error(error, None) => error.origin != 1,
                    Control::Ipv4Error(error, Some(_)) => error.origin != 1 && hop_limit(
                        controls,
                        controls.len() as int,
                    ) is None,
                    Control::Ipv6Error(error, Some(_)) => error.origin != 1 && hop_limit(
                        controls,
                        controls.len() as int,
                    ) is None,
                    _ => false,
                }
                &&& forall|k: int|
                    i < k < controls.len() ==> !(#[trigger] controls[k] is Ipv4Error) && !(controls[k] is Ipv6Error)
            }
        }),
    ensures
        drained(quote, bytes, destination, controls) is Neither,
{
    if forall|k: int|
        0 <= k < controls.len() ==> !(#[trigger] controls[k] is Ipv4Error) && !(controls[k] is Ipv6Error) {
        lemma_no_error_since(controls, 0, controls.len() as int);
    } else {
        lemma_no_error_since(controls, i + 1, controls.len() as int);
    }
}

/// Of the system's own errors in a queue the first is kept: none is where there is none, and what comes after it or
/// is none of the system's own changes nothing.
pub proof fn law_the_first_own_error_is_kept(messages: Seq<DrainedState>, n: int, i: int)
    requires
        0 <= n <= messages.len(),
        0 <= i <= n,
        forall|k: int| 0 <= k < i ==> !(#[trigger] messages[k] is Local),
    ensures
        i == n ==> first_local(messages, n) is None,
        i < n && messages[i] is Local ==> first_local(messages, n) == Some(messages[i]->Local_0),
    decreases n,
{
    if i < n {
        law_the_first_own_error_is_kept(messages, n - 1, i);
        if i == n - 1 {
            law_the_first_own_error_is_kept(messages, n - 1, n - 1);
        }
    } else if n > 0 {
        law_the_first_own_error_is_kept(messages, n - 1, n - 1);
    }
}

/// What could not be read beside a message is told with why.
pub proof fn law_what_could_not_be_read_is_told(why: Seq<char>)
    ensures
        unreadable(why).kind is Other,
        unreadable(why).message == "failed to read ancillary data: "@ + why,
        unreadable(why).errno is None,
{
}

/// An error that was reported is seen as it is, field by field and octet by octet, and so is a message of a queue.
pub proof fn law_a_report_is_seen_as_it_is(reported: Reported, message: Drained)
    ensures
        reported@.remote == reported.remote,
        reported@.destination == reported.destination,
        reported@.hop_limit == reported.hop_limit,
        reported@.message_type == reported.message_type,
        reported@.code == reported.code,
        reported@.info == reported.info,
        reported@.quoted == reported.quoted@,
        message is Local <==> message@ is Local,
        message is Remote <==> message@ is Remote,
        message is Local ==> message@->Local_0 == message->Local_0,
        message is Remote ==> message@->Remote_0 == message->Remote_0@,
{
}

} // verus!
