//! Whether what the app hands over to start a session is what it says it is.
use vstd::prelude::*;

use crate::octets::{be32, read_u32};
use crate::protocol::{
    contextual, invalid_data, plain_error, ErrorKind, ErrorState, IoError, IoErrorReportExt, Site,
};
use crate::text::{decimal, decimal_text, hexadecimal, lossy, lossy_text, push_decimal, push_hexadecimal};

verus! {

/// How many octets an interface's name has, with those behind it.
pub const IFNAMSIZ: usize = 16;

/// That the app's socket closed before the session started.
pub fn closed_early() -> (r: IoError)
    ensures
        r@ == plain_error(
            ErrorKind::UnexpectedEof,
            "control socket closed before the session started"@,
        ),
{
    IoError::new(
        ErrorKind::UnexpectedEof,
        "control socket closed before the session started".to_owned(),
    )
}

/// Reads how long a start frame is: not empty, and no longer than a packet may be.
pub fn start_frame_length(header: &[u8; 4], max: usize) -> (r: Result<usize, IoError>)
    ensures
        ({
            let length = be32(header@, 0);
            if length == 0 || length > max {
                r is Err && r->Err_0@ == plain_error(
                    ErrorKind::InvalidData,
                    "invalid start frame length "@ + decimal(length as nat),
                )
            } else {
                r == Ok::<usize, IoError>(length as usize)
            }
        }),
{
    let length = read_u32(header.as_slice(), 0);
    if length == 0 || length as u64 > max as u64 {
        let mut message = "invalid start frame length ".to_owned();
        push_decimal(&mut message, length as u64);
        return Err(invalid_data(message));
    }
    Ok(length as usize)
}

/// Where a failure about what was handed over happens.
pub open spec fn verify_context() -> Seq<char> {
    "shizuku.handoff.verify_tun"@
}

/// That what was handed over is refused.
pub open spec fn refuses(r: ErrorState, message: Seq<char>, site: Site) -> bool {
    contextual(plain_error(ErrorKind::InvalidInput, message), r, verify_context(), site, Seq::empty())
}

fn refused(message: String, site: &Site) -> (r: IoError)
    ensures
        refuses(r@, message@, *site),
{
    IoError::new(ErrorKind::InvalidInput, message).with_report_context("shizuku.handoff.verify_tun", site)
}

/// Holds how many descriptors came: exactly one is to.
pub fn descriptors(count: usize, site: &Site) -> (r: Result<(), IoError>)
    ensures
        r is Ok == (count == 1),
        r matches Err(error) ==> contextual(
            plain_error(
                ErrorKind::InvalidData,
                if count == 0 {
                    "no descriptor was transferred"@
                } else {
                    decimal(count as nat) + " descriptors were transferred"@
                },
            ),
            error@,
            "shizuku.handoff.descriptors"@,
            *site,
            Seq::empty(),
        ),
{
    if count == 0 {
        let error = invalid_data("no descriptor was transferred".to_owned());
        return Err(error.with_report_context("shizuku.handoff.descriptors", site));
    }
    if count > 1 {
        let mut message = decimal_text(count as u64);
        message.append(" descriptors were transferred");
        return Err(invalid_data(message).with_report_context("shizuku.handoff.descriptors", site));
    }
    Ok(())
}

/// The flag of a descriptor that does not block.
///
/// Reads `libc::O_NONBLOCK`, which is 0x800 on the machines that Android runs on.
#[verifier::external_body]
fn o_nonblock() -> (r: i32)
    ensures
        r == 0x800,
{
    libc::O_NONBLOCK
}

/// Holds a descriptor's flags: it is not to block.
pub fn nonblocking(flags: i32, site: &Site) -> (r: Result<(), IoError>)
    ensures
        r is Ok == (flags & 0x800 != 0),
        r matches Err(error) ==> refuses(error@, "transferred descriptor is blocking"@, *site),
{
    if flags & o_nonblock() == 0 {
        return Err(refused("transferred descriptor is blocking".to_owned(), site));
    }
    Ok(())
}

/// How long the name at the start of a field is: up to the first zero, or all of it.
pub open spec fn name_length(field: Seq<u8>, i: int) -> int
    decreases field.len() - i,
{
    if i < 0 || i >= field.len() {
        field.len() as int
    } else if field[i] == 0 {
        i
    } else {
        name_length(field, i + 1)
    }
}

/// The name of an interface, as its field holds it.
pub fn interface_name(field: &[u8; 16]) -> (r: String)
    ensures
        r@ == lossy_text(field@.subrange(0, name_length(field@, 0))),
{
    let mut end: usize = 0;
    let mut going = true;
    while end < 16 && going
        invariant
            end <= 16,
            field@.len() == 16,
            going ==> name_length(field@, 0) == name_length(field@, end as int),
            !going ==> name_length(field@, 0) == end,
        decreases 16 - end, going as int,
    {
        if field[end] == 0 {
            going = false;
        } else {
            end += 1;
        }
    }
    let bytes = field.as_slice();
    lossy(vstd::slice::slice_subrange(bytes, 0, end))
}

/// The flags of a tun without a header before its packets.
pub const TUN_FLAGS: i16 = 0x1001;

/// The flag of a tun.
///
/// Reads `libc::IFF_TUN`, which is 1.
#[verifier::external_body]
fn iff_tun() -> (r: i32)
    ensures
        r == 1,
{
    libc::IFF_TUN
}

/// The flag of an interface without a header before its packets.
///
/// Reads `libc::IFF_NO_PI`, which is 0x1000.
#[verifier::external_body]
fn iff_no_pi() -> (r: i32)
    ensures
        r == 0x1000,
{
    libc::IFF_NO_PI
}

/// The flags of a tun without a header before its packets.
fn tun_flags() -> (r: i16)
    ensures
        r == TUN_FLAGS,
{
    assert((1i32 | 0x1000i32) as i16 == 0x1001i16) by (bit_vector);
    (iff_tun() | iff_no_pi()) as i16
}

/// That a tun is another one.
pub open spec fn other_tun(name: Seq<char>, expected: Seq<char>) -> Seq<char> {
    "transferred TUN is "@ + name + " but "@ + expected + " was expected"@
}

/// Holds a tun's name and flags.
pub fn tun(name: &String, flags: i16, expected: &str, site: &Site) -> (r: Result<(), IoError>)
    ensures
        if name@ != expected@ {
            r is Err && refuses(r->Err_0@, other_tun(name@, expected@), *site)
        } else if flags & 0x1001 != 0x1001 {
            r is Err && refuses(
                r->Err_0@,
                "transferred TUN has flags 0x"@ + hexadecimal(flags as u16 as nat),
                *site,
            )
        } else {
            r is Ok
        },
{
    let wanted = expected.to_owned();
    if !(*name == wanted) {
        let mut message = "transferred TUN is ".to_owned();
        message.append(name.as_str());
        message.append(" but ");
        message.append(expected);
        message.append(" was expected");
        return Err(refused(message, site));
    }
    let wanted_flags: i16 = tun_flags();
    if flags & wanted_flags != wanted_flags {
        let mut message = "transferred TUN has flags 0x".to_owned();
        push_hexadecimal(&mut message, flags as u16 as u32);
        return Err(refused(message, site));
    }
    Ok(())
}

/// Reads an interface's limit, which is not negative.
pub fn interface_mtu(mtu: i32, site: &Site) -> (r: Result<u32, IoError>)
    ensures
        if mtu >= 0 {
            r == Ok::<u32, IoError>(mtu as u32)
        } else {
            r is Err && contextual(
                plain_error(
                    ErrorKind::InvalidData,
                    "negative MTU: out of range integral type conversion attempted"@,
                ),
                r->Err_0@,
                "shizuku.handoff.interface_mtu"@,
                *site,
                Seq::empty(),
            )
        },
{
    if mtu >= 0 {
        return Ok(mtu as u32);
    }
    let error = invalid_data("negative MTU: out of range integral type conversion attempted".to_owned());
    Err(error.with_report_context("shizuku.handoff.interface_mtu", site))
}

/// Holds an interface's limit against the declared one.
pub fn declared_mtu(name: &String, interface: u32, declared: u32, site: &Site) -> (r: Result<(), IoError>)
    ensures
        r is Ok == (interface == declared),
        r matches Err(error) ==> refuses(
            error@,
            name@ + " has MTU "@ + decimal(interface as nat) + " but "@ + decimal(declared as nat)
                + " was declared"@,
            *site,
        ),
{
    if interface == declared {
        return Ok(());
    }
    let mut message = name.clone();
    message.append(" has MTU ");
    push_decimal(&mut message, interface as u64);
    message.append(" but ");
    push_decimal(&mut message, declared as u64);
    message.append(" was declared");
    Err(refused(message, site))
}

/// The family of IPv4 addresses.
///
/// Reads `libc::AF_INET`, which is 2.
#[verifier::external_body]
fn af_inet() -> (r: u16)
    ensures
        r == 2,
{
    libc::AF_INET as u16
}

/// Reads an interface's address, which is one of IPv4.
pub fn interface_address(family: u16, address: &[u8; 4], site: &Site) -> (r: Result<u32, IoError>)
    ensures
        if family == 2 {
            r == Ok::<u32, IoError>(be32(address@, 0) as u32)
        } else {
            r is Err && contextual(
                plain_error(
                    ErrorKind::InvalidData,
                    "interface address is family "@ + decimal(family as nat),
                ),
                r->Err_0@,
                "shizuku.handoff.interface_address"@,
                *site,
                Seq::empty(),
            )
        },
{
    if family == af_inet() {
        return Ok(read_u32(address.as_slice(), 0));
    }
    let mut message = "interface address is family ".to_owned();
    push_decimal(&mut message, family as u64);
    Err(invalid_data(message).with_report_context("shizuku.handoff.interface_address", site))
}

/// A name ends before the first zero, or with its field where there is none.
pub proof fn law_a_name_ends_at_the_first_zero(field: Seq<u8>, i: int)
    requires
        0 <= i <= field.len(),
        forall|k: int| 0 <= k < i ==> #[trigger] field[k] != 0,
    ensures
        i < field.len() && field[i] == 0 ==> name_length(field, 0) == i,
        i == field.len() ==> name_length(field, 0) == i,
{
    lemma_name_length(field, 0, i);
}

proof fn lemma_name_length(field: Seq<u8>, a: int, i: int)
    requires
        0 <= a <= i <= field.len(),
        forall|k: int| 0 <= k < i ==> #[trigger] field[k] != 0,
    ensures
        name_length(field, a) == name_length(field, i),
    decreases i - a,
{
    if a < i {
        assert(field[a] != 0);
        lemma_name_length(field, a + 1, i);
    }
}

/// What is wrong with a tun is told as an invalid input, in the context of its verification, and names what was found
/// and what was expected.
pub proof fn law_a_refused_tun_is_told_as_invalid(r: ErrorState, message: Seq<char>, site: Site)
    requires
        refuses(r, message, site),
    ensures
        r.kind is InvalidInput,
        r.attached is Some,
{
}

/// A tun that is another than expected is told with both names, in the context of its verification.
pub proof fn law_another_tun_is_told_by_name(name: Seq<char>, expected: Seq<char>)
    ensures
        other_tun(name, expected) == "transferred TUN is "@ + name + " but "@ + expected + " was expected"@,
        verify_context() == "shizuku.handoff.verify_tun"@,
{
}

} // verus!
