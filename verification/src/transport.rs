//! Frames between the app and the daemon, as octets.
use vstd::prelude::*;
use vstd::utf8::encode_utf8;

use crate::octets::{
    be32, be64, law_read_back_u32, law_read_back_u64, lemma_be_bounds, oct4, oct8, push_all, push_range, push_u32,
    push_u64, read_u64,
};
use crate::protocol::{
    detail_views, plain_error, DaemonErrorReport, ErrorDetail, ErrorKind, ErrorState, IoError, ReportState,
};
use crate::text::{decimal, push_decimal};

verus! {

/// A frame of the app that begins a call.
pub const FRAME_CALL: u8 = 0;

/// A frame of the app that cancels a call.
pub const FRAME_CANCEL: u8 = 1;

/// A frame of the daemon that answers a call.
pub const FRAME_REPLY: u8 = 0;

/// A frame of the daemon about a call that goes on.
pub const FRAME_EVENT: u8 = 1;

/// A frame of the daemon that ends a call with a failure.
pub const FRAME_ERROR: u8 = 2;

/// A frame of the daemon about a failure that ends no call.
pub const FRAME_NON_FATAL: u8 = 3;

/// The identifier that no call has.
pub const NO_CALL_ID: u64 = 0;

/// A frame of the app.
#[derive(Debug, PartialEq, Eq)]
pub enum ClientFrame {
    Call { id: u64, packet: Vec<u8> },
    Cancel { id: u64 },
}

/// What a frame of the app says.
#[verifier::ext_equal]
pub enum ClientFrameState {
    Call { id: u64, packet: Seq<u8> },
    Cancel { id: u64 },
}

impl View for ClientFrame {
    type V = ClientFrameState;

    open spec fn view(&self) -> ClientFrameState {
        match self {
            ClientFrame::Call { id, packet } => ClientFrameState::Call { id: *id, packet: packet@ },
            ClientFrame::Cancel { id } => ClientFrameState::Cancel { id: *id },
        }
    }
}

/// That a frame ends too early.
pub open spec fn short_frame() -> ErrorState {
    plain_error(ErrorKind::UnexpectedEof, "short frame"@)
}

/// That a frame names no call.
pub open spec fn no_call() -> ErrorState {
    plain_error(ErrorKind::InvalidData, "invalid daemon call id 0"@)
}

/// A frame of the app read from octets, or what is wrong with them.
pub open spec fn client_frame(packet: Seq<u8>) -> Result<ClientFrameState, ErrorState> {
    if packet.len() < 1 {
        Err(short_frame())
    } else if packet[0] > 1 {
        Err(plain_error(ErrorKind::InvalidData, "unknown client frame "@ + decimal(packet[0] as nat)))
    } else if packet.len() < 9 {
        Err(short_frame())
    } else if be64(packet, 1) == 0 {
        Err(no_call())
    } else if packet[0] == 0 {
        Ok(
            ClientFrameState::Call {
                id: be64(packet, 1) as u64,
                packet: packet.subrange(9, packet.len() as int),
            },
        )
    } else if packet.len() > 9 {
        Err(plain_error(ErrorKind::InvalidData, "cancel frame has payload"@))
    } else {
        Ok(ClientFrameState::Cancel { id: be64(packet, 1) as u64 })
    }
}

struct Parser<'a> {
    packet: &'a [u8],
    offset: usize,
}

impl<'a> Parser<'a> {
    spec fn wf(self) -> bool {
        self.offset <= self.packet@.len()
    }

    fn new(packet: &'a [u8]) -> (r: Self)
        ensures
            r.wf(),
            r.packet@ == packet@,
            r.offset == 0,
    {
        Parser { packet, offset: 0 }
    }

    /// Whether `count` more octets stand behind what was read; if so they count as read.
    fn read_exact(&mut self, count: usize) -> (r: Result<(), IoError>)
        requires
            old(self).wf(),
        ensures
            final(self).wf(),
            final(self).packet == old(self).packet,
            match r {
                Ok(_) => final(self).offset == old(self).offset + count,
                Err(error) => final(self).offset == old(self).offset && old(self).offset + count
                    > old(self).packet@.len() && error@ == short_frame(),
            },
    {
        if count > self.packet.len() - self.offset {
            return Err(IoError::new(ErrorKind::UnexpectedEof, "short frame".to_owned()));
        }
        self.offset += count;
        Ok(())
    }

    fn read_u8(&mut self) -> (r: Result<u8, IoError>)
        requires
            old(self).wf(),
        ensures
            final(self).wf(),
            final(self).packet == old(self).packet,
            match r {
                Ok(octet) => final(self).offset == old(self).offset + 1 && octet
                    == old(self).packet@[old(self).offset as int],
                Err(error) => old(self).offset + 1 > old(self).packet@.len() && error@ == short_frame(),
            },
    {
        match self.read_exact(1) {
            Ok(_) => Ok(self.packet[self.offset - 1]),
            Err(error) => Err(error),
        }
    }

    fn read_u64(&mut self) -> (r: Result<u64, IoError>)
        requires
            old(self).wf(),
        ensures
            final(self).wf(),
            final(self).packet == old(self).packet,
            match r {
                Ok(number) => final(self).offset == old(self).offset + 8 && number == be64(
                    old(self).packet@,
                    old(self).offset as int,
                ),
                Err(error) => old(self).offset + 8 > old(self).packet@.len() && error@ == short_frame(),
            },
    {
        match self.read_exact(8) {
            Ok(_) => Ok(read_u64(self.packet, self.offset - 8)),
            Err(error) => Err(error),
        }
    }

    fn read_call_id(&mut self) -> (r: Result<u64, IoError>)
        requires
            old(self).wf(),
        ensures
            final(self).wf(),
            final(self).packet == old(self).packet,
            match r {
                Ok(id) => final(self).offset == old(self).offset + 8 && id != 0 && id == be64(
                    old(self).packet@,
                    old(self).offset as int,
                ),
                Err(error) => if old(self).offset + 8 > old(self).packet@.len() {
                    error@ == short_frame()
                } else {
                    be64(old(self).packet@, old(self).offset as int) == 0 && error@ == no_call()
                },
            },
    {
        match self.read_u64() {
            Ok(NO_CALL_ID) => Err(IoError::new(ErrorKind::InvalidData, "invalid daemon call id 0".to_owned())),
            Ok(id) => Ok(id),
            Err(error) => Err(error),
        }
    }

    fn remaining(&self) -> (r: Vec<u8>)
        requires
            self.wf(),
        ensures
            r@ == self.packet@.subrange(self.offset as int, self.packet@.len() as int),
    {
        let mut rest: Vec<u8> = Vec::new();
        push_range(&mut rest, self.packet, self.offset, self.packet.len());
        assert(rest@ =~= self.packet@.subrange(self.offset as int, self.packet@.len() as int));
        rest
    }
}

/// Reads a frame of the app.
pub fn parse_client_frame(packet: &[u8]) -> (r: Result<ClientFrame, IoError>)
    ensures
        match r {
            Ok(frame) => client_frame(packet@) == Ok::<ClientFrameState, ErrorState>(frame@),
            Err(error) => client_frame(packet@) == Err::<ClientFrameState, ErrorState>(error@),
        },
{
    let mut parser = Parser::new(packet);
    let frame_type = match parser.read_u8() {
        Ok(frame_type) => frame_type,
        Err(error) => return Err(error),
    };
    match frame_type {
        FRAME_CALL => match parser.read_call_id() {
            Ok(id) => Ok(ClientFrame::Call { id, packet: parser.remaining() }),
            Err(error) => Err(error),
        },
        FRAME_CANCEL => {
            let id = match parser.read_call_id() {
                Ok(id) => id,
                Err(error) => return Err(error),
            };
            if parser.remaining().len() != 0 {
                return Err(IoError::new(ErrorKind::InvalidData, "cancel frame has payload".to_owned()));
            }
            Ok(ClientFrame::Cancel { id })
        },
        frame => {
            let mut message = "unknown client frame ".to_owned();
            push_decimal(&mut message, frame as u64);
            Err(IoError::new(ErrorKind::InvalidData, message))
        },
    }
}

/// The beginning of a frame: its type and its call.
pub open spec fn frame_header(frame_type: u8, id: u64) -> Seq<u8> {
    seq![frame_type] + oct8(id as int)
}

fn write_frame_header(frame_type: u8, id: u64) -> (r: Vec<u8>)
    ensures
        r@ == frame_header(frame_type, id),
{
    let mut frame: Vec<u8> = Vec::new();
    frame.push(frame_type);
    push_u64(&mut frame, id);
    assert(frame@ =~= frame_header(frame_type, id));
    frame
}

fn write_frame(frame_type: u8, id: u64, packet: Vec<u8>) -> (r: Vec<u8>)
    ensures
        r@ == frame_header(frame_type, id) + packet@,
{
    let mut frame = write_frame_header(frame_type, id);
    push_all(&mut frame, packet.as_slice());
    frame
}

/// A reply to a call.
pub fn reply_frame(id: u64, packet: Vec<u8>) -> (r: Vec<u8>)
    requires
        id != NO_CALL_ID,
    ensures
        r@ == frame_header(FRAME_REPLY, id) + packet@,
{
    write_frame(FRAME_REPLY, id, packet)
}

/// An event of a call.
pub fn event_frame(id: u64, packet: Vec<u8>) -> (r: Vec<u8>)
    requires
        id != NO_CALL_ID,
    ensures
        r@ == frame_header(FRAME_EVENT, id) + packet@,
{
    write_frame(FRAME_EVENT, id, packet)
}

/// A text on the wire: how many octets it has, modulo the numbers of 32 bits, and they.
pub open spec fn utf(text: Seq<char>) -> Seq<u8> {
    oct4(encode_utf8(text).len() as int % 0x1_0000_0000) + encode_utf8(text)
}

fn write_utf(packet: &mut Vec<u8>, value: &str)
    ensures
        final(packet)@ == old(packet)@ + utf(value@),
{
    let bytes = value.as_bytes();
    push_u32(packet, (bytes.len() as u64 % 0x1_0000_0000) as u32);
    push_all(packet, bytes);
    assert(packet@ =~= old(packet)@ + utf(value@));
}

/// A number with a sign on the wire, in two's complement.
pub open spec fn signed(n: int) -> Seq<u8> {
    oct4(n % 0x1_0000_0000)
}

fn write_signed(packet: &mut Vec<u8>, n: i32)
    ensures
        final(packet)@ == old(packet)@ + signed(n as int),
{
    if n < 0 {
        push_u32(packet, (n as i64 + 0x1_0000_0000) as u32);
    } else {
        push_u32(packet, n as u32);
    }
}

/// The first `n` details of a report on the wire.
pub open spec fn details_octets(details: Seq<(Seq<char>, Seq<char>)>, n: int) -> Seq<u8>
    decreases n,
{
    if n <= 0 {
        Seq::empty()
    } else {
        details_octets(details, n - 1) + utf(details[n - 1].0) + utf(details[n - 1].1)
    }
}

/// A report on the wire. Where no system call names the failure its number is -1.
pub open spec fn report_octets(report: ReportState) -> Seq<u8> {
    utf(report.context) + utf(report.message) + signed(
        match report.errno {
            Some(errno) => errno as int,
            None => -1,
        },
    ) + utf(report.kind) + utf(report.file) + oct4(report.line as int) + oct4(report.column as int) + oct4(
        report.pid as int,
    ) + oct4(report.details.len() as int % 0x1_0000_0000) + details_octets(
        report.details,
        report.details.len() as int,
    )
}

proof fn lemma_joined(a: Seq<u8>, b: Seq<u8>, c: Seq<u8>)
    ensures
        (a + b) + c == a + (b + c),
{
    assert((a + b) + c =~= a + (b + c));
}

fn write_details(packet: &mut Vec<u8>, details: &Vec<ErrorDetail>)
    ensures
        final(packet)@ == old(packet)@ + details_octets(detail_views(details@), details@.len() as int),
{
    let ghost before = packet@;
    let ghost views = detail_views(details@);
    let mut i: usize = 0;
    assert(packet@ =~= before + details_octets(views, 0));
    while i < details.len()
        invariant
            i <= details@.len(),
            views == detail_views(details@),
            packet@ == before + details_octets(views, i as int),
        decreases details@.len() - i,
    {
        let detail = &details[i];
        write_utf(packet, detail.key.as_str());
        write_utf(packet, detail.value.as_str());
        proof {
            let done = details_octets(views, i as int);
            lemma_joined(before, done, utf(detail.key@));
            lemma_joined(before, done + utf(detail.key@), utf(detail.value@));
        }
        i += 1;
    }
}

#[verifier::spinoff_prover]
fn write_error_report(packet: &mut Vec<u8>, report: &DaemonErrorReport)
    ensures
        final(packet)@ == old(packet)@ + report_octets(report@),
{
    let ghost before = packet@;
    write_utf(packet, report.context.as_str());
    write_utf(packet, report.message.as_str());
    let errno: i32 = match report.errno {
        Some(errno) => errno,
        None => -1,
    };
    write_signed(packet, errno);
    write_utf(packet, report.kind.as_str());
    write_utf(packet, report.file.as_str());
    push_u32(packet, report.line);
    push_u32(packet, report.column);
    push_u32(packet, report.pid);
    push_u32(packet, (report.details.len() as u64 % 0x1_0000_0000) as u32);
    write_details(packet, &report.details);
    proof {
        let a1 = utf(report.context@);
        let a2 = a1 + utf(report.message@);
        let a3 = a2 + signed(errno as int);
        let a4 = a3 + utf(report.kind@);
        let a5 = a4 + utf(report.file@);
        let a6 = a5 + oct4(report.line as int);
        let a7 = a6 + oct4(report.column as int);
        let a8 = a7 + oct4(report.pid as int);
        let count = oct4(report.details@.len() as int % 0x1_0000_0000);
        let a9 = a8 + count;
        let details = details_octets(report@.details, report.details@.len() as int);
        lemma_joined(before, a1, utf(report.message@));
        lemma_joined(before, a2, signed(errno as int));
        lemma_joined(before, a3, utf(report.kind@));
        lemma_joined(before, a4, utf(report.file@));
        lemma_joined(before, a5, oct4(report.line as int));
        lemma_joined(before, a6, oct4(report.column as int));
        lemma_joined(before, a7, oct4(report.pid as int));
        lemma_joined(before, a8, count);
        lemma_joined(before, a9, details);
    }
}

/// Ends a call with a failure.
pub fn error_frame(id: u64, report: DaemonErrorReport) -> (r: Vec<u8>)
    requires
        id != NO_CALL_ID,
    ensures
        r@ == frame_header(FRAME_ERROR, id) + report_octets(report@),
{
    let mut frame = write_frame_header(FRAME_ERROR, id);
    write_error_report(&mut frame, &report);
    frame
}

/// Reports a failure that ends no call.
pub fn nonfatal_frame(id: Option<u64>, report: DaemonErrorReport) -> (r: Vec<u8>)
    ensures
        r@ == frame_header(
            FRAME_NON_FATAL,
            match id {
                Some(id) => id,
                None => NO_CALL_ID,
            },
        ) + report_octets(report@),
{
    let id: u64 = match id {
        Some(id) => id,
        None => NO_CALL_ID,
    };
    let mut frame = write_frame_header(FRAME_NON_FATAL, id);
    write_error_report(&mut frame, &report);
    frame
}

/// Every frame reads back: its type is its first octet, its call is what it was made for, and what it carries
/// stands behind them.
pub proof fn law_frame_reads_back(frame_type: u8, id: u64, packet: Seq<u8>)
    ensures
        ({
            let frame = frame_header(frame_type, id) + packet;
            &&& frame[0] == frame_type
            &&& be64(frame, 1) == id
            &&& frame.subrange(9, frame.len() as int) == packet
        }),
{
    let frame = frame_header(frame_type, id) + packet;
    assert(frame.subrange(1, 9) =~= oct8(id as int));
    law_read_back_u64(frame, 1, id as int);
    assert(frame.subrange(9, frame.len() as int) =~= packet);
}

/// A call frame of any call and payload is read as that call with that payload, and a cancel frame as the
/// cancelling of that call.
pub proof fn law_client_frames_are_read(id: u64, packet: Seq<u8>)
    requires
        id != NO_CALL_ID,
    ensures
        client_frame(frame_header(FRAME_CALL, id) + packet) == Ok::<ClientFrameState, ErrorState>(
            ClientFrameState::Call { id, packet },
        ),
        client_frame(frame_header(FRAME_CANCEL, id)) == Ok::<ClientFrameState, ErrorState>(
            ClientFrameState::Cancel { id },
        ),
{
    law_frame_reads_back(FRAME_CALL, id, packet);
    law_frame_reads_back(FRAME_CANCEL, id, Seq::empty());
    assert(frame_header(FRAME_CANCEL, id) + Seq::empty() =~= frame_header(FRAME_CANCEL, id));
}

/// A text of less than four gibibytes reads back from where it stands: its length, then its octets.
pub proof fn law_text_reads_back(before: Seq<u8>, text: Seq<char>, after: Seq<u8>)
    requires
        encode_utf8(text).len() <= u32::MAX,
    ensures
        ({
            let packet = before + utf(text) + after;
            let start = before.len() as int;
            let length = be32(packet, start);
            &&& length == encode_utf8(text).len()
            &&& packet.subrange(start + 4, start + 4 + length) == encode_utf8(text)
        }),
{
    let packet = before + utf(text) + after;
    let start = before.len() as int;
    let bytes = encode_utf8(text);
    assert(packet.subrange(start, start + 4) =~= oct4(bytes.len() as int));
    law_read_back_u32(packet, start, bytes.len() as int);
    assert(packet.subrange(start + 4, start + 4 + bytes.len()) =~= bytes);
}

/// A frame of the app is a call or a cancellation, told by its first octet, 0 or 1, and the number of a call, which is
/// not zero, in the next eight. A call has all that follows for its packet, and a cancellation has nothing more. Any
/// other frame is refused, as one that ended too soon or as invalid.
pub proof fn law_which_frames_are_read(packet: Seq<u8>)
    ensures
        client_frame(packet) is Ok <==> packet.len() >= 9 && be64(packet, 1) != 0 && (packet[0] == 0 || packet[0] == 1
            && packet.len() == 9),
        packet.len() >= 9 && packet[0] == 0 && be64(packet, 1) != 0 ==> client_frame(packet)->Ok_0 is Call
            && client_frame(packet)->Ok_0->Call_id == be64(packet, 1) && client_frame(packet)->Ok_0->packet
            == packet.subrange(9, packet.len() as int),
        packet.len() == 9 && packet[0] == 1 && be64(packet, 1) != 0 ==> client_frame(packet)->Ok_0 is Cancel
            && client_frame(packet)->Ok_0->Cancel_id == be64(packet, 1),
        packet.len() == 0 || packet[0] <= 1 && packet.len() < 9 ==> client_frame(packet)->Err_0.kind is UnexpectedEof,
        packet.len() > 0 && packet[0] > 1 ==> client_frame(packet)->Err_0.kind is InvalidData,
        packet.len() >= 9 && packet[0] <= 1 && be64(packet, 1) == 0 ==> client_frame(packet)->Err_0.kind is InvalidData,
        packet.len() > 9 && packet[0] == 1 ==> client_frame(packet) is Err && client_frame(packet)->Err_0.kind
            is InvalidData,
{
    lemma_be_bounds(packet, 1);
}

/// The frames to the app are told apart by their first octets: a reply 0, an event 1, an error 2 and an error that ends
/// nothing 3. A report of no call has the number zero.
pub proof fn law_frames_are_told_apart()
    ensures
        FRAME_REPLY == 0,
        FRAME_EVENT == 1,
        FRAME_ERROR == 2,
        FRAME_NON_FATAL == 3,
        FRAME_CALL == 0,
        FRAME_CANCEL == 1,
        NO_CALL_ID == 0,
{
}

/// Whether octets begin with two texts and a number, and go on with the rest.
pub open spec fn begins(o: Seq<u8>, context: Seq<char>, message: Seq<char>, n: int, rest: Seq<u8>) -> bool {
    let a = 4 + encode_utf8(context).len() as int;
    let b = a + 4 + encode_utf8(message).len();
    &&& be32(o, 0) == encode_utf8(context).len()
    &&& o.subrange(4, a) == encode_utf8(context)
    &&& be32(o, a) == encode_utf8(message).len()
    &&& o.subrange(a + 4, b) == encode_utf8(message)
    &&& be32(o, b) == n
    &&& o.subrange(b + 4, o.len() as int) == rest
}

/// A report begins with its context and its message and then its number, minus one where it has none. Its kind, its
/// file, its line, its column, its process and its details follow in this order.
pub proof fn law_what_a_report_begins_with(report: ReportState, n: int)
    requires
        encode_utf8(report.context).len() <= u32::MAX,
        encode_utf8(report.message).len() <= u32::MAX,
        0 <= n <= u32::MAX,
        report.errno is None ==> n == 0xffff_ffff,
        report.errno is Some && report.errno->0 >= 0 ==> n == report.errno->0,
        report.errno is Some && report.errno->0 < 0 ==> n == report.errno->0 + 0x1_0000_0000,
    ensures
        begins(
            report_octets(report),
            report.context,
            report.message,
            n,
            utf(report.kind) + utf(report.file) + oct4(report.line as int) + oct4(report.column as int) + oct4(
                report.pid as int,
            ) + oct4(report.details.len() as int % 0x1_0000_0000) + details_octets(
                report.details,
                report.details.len() as int,
            ),
        ),
{
    let count = oct4(report.details.len() as int % 0x1_0000_0000);
    let details = details_octets(report.details, report.details.len() as int);
    lemma_regrouped(
        utf(report.context) + utf(report.message) + oct4(n),
        utf(report.kind),
        utf(report.file),
        oct4(report.line as int),
        oct4(report.column as int),
        oct4(report.pid as int),
        count,
        details,
    );
    lemma_begins(
        report.context,
        report.message,
        n,
        utf(report.kind) + utf(report.file) + oct4(report.line as int) + oct4(report.column as int) + oct4(
            report.pid as int,
        ) + count + details,
    );
    lemma_signed(report.errno, n);
}

proof fn lemma_signed(errno: Option<i32>, n: int)
    requires
        0 <= n <= u32::MAX,
        errno is None ==> n == 0xffff_ffff,
        errno is Some && errno->0 >= 0 ==> n == errno->0,
        errno is Some && errno->0 < 0 ==> n == errno->0 + 0x1_0000_0000,
    ensures
        (match errno {
            Some(errno) => errno as int,
            None => -1,
        }) % 0x1_0000_0000 == n,
{
}

proof fn lemma_regrouped(
    a: Seq<u8>,
    b: Seq<u8>,
    c: Seq<u8>,
    d: Seq<u8>,
    e: Seq<u8>,
    f: Seq<u8>,
    g: Seq<u8>,
    h: Seq<u8>,
)
    ensures
        a + b + c + d + e + f + g + h == a + (b + c + d + e + f + g + h),
{
    assert(a + b + c + d + e + f + g + h =~= a + (b + c + d + e + f + g + h));
}

proof fn lemma_begins(context: Seq<char>, message: Seq<char>, n: int, rest: Seq<u8>)
    requires
        encode_utf8(context).len() <= u32::MAX,
        encode_utf8(message).len() <= u32::MAX,
        0 <= n <= u32::MAX,
    ensures
        begins(utf(context) + utf(message) + oct4(n) + rest, context, message, n, rest),
{
    let one = utf(context);
    let two = utf(message);
    let o = one + two + oct4(n) + rest;
    let b = (one.len() + two.len()) as int;
    assert(o =~= Seq::<u8>::empty() + one + (two + oct4(n) + rest));
    law_text_reads_back(Seq::empty(), context, two + oct4(n) + rest);
    assert(o =~= one + two + (oct4(n) + rest));
    law_text_reads_back(one, message, oct4(n) + rest);
    assert(o.subrange(b, b + 4) =~= oct4(n));
    law_read_back_u32(o, b, n);
    assert(o.subrange(b + 4, o.len() as int) =~= rest);
}

/// The details of a report follow one another, each with its name before its value.
pub proof fn law_details_follow_one_another(details: Seq<(Seq<char>, Seq<char>)>, n: int)
    requires
        0 <= n < details.len(),
    ensures
        details_octets(details, 0).len() == 0,
        details_octets(details, n + 1) == details_octets(details, n) + utf(details[n].0) + utf(details[n].1),
{
}

} // verus!
