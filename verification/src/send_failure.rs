//! Why a send to the upstream failed.
use vstd::prelude::*;

use crate::protocol::{ErrorKind, IoError};

verus! {

/// What a failed send means.
#[derive(Clone, Copy, Debug, PartialEq, Eq, Structural)]
pub enum Failure {
    Blocked,
    TooBig,
    Unreachable,
    Unexpected,
}

/// The number of the error that says a message is too long for its path.
///
/// Reads `libc::EMSGSIZE`, which is 90 on the machines that Android runs on.
#[verifier::external_body]
pub(crate) fn emsgsize() -> (r: i32)
    ensures
        r == 90,
{
    libc::EMSGSIZE
}

/// The number of the error that says there is no network.
///
/// Reads `libc::ENONET`, which is 64 on the machines that Android runs on.
#[verifier::external_body]
fn enonet() -> (r: i32)
    ensures
        r == 64,
{
    libc::ENONET
}

/// What an error of a send means. `kernel_icmp` says whether it is one that the system makes of an ICMP error.
pub open spec fn meaning(kind: ErrorKind, errno: Option<i32>, kernel_icmp: bool) -> Failure {
    if kind is WouldBlock {
        Failure::Blocked
    } else if errno == Some(90i32) {
        Failure::TooBig
    } else if errno == Some(64i32) || kernel_icmp {
        Failure::Unreachable
    } else {
        Failure::Unexpected
    }
}

/// Tells what an error of a send means.
pub fn classify(e: &IoError, kernel_icmp: bool) -> (r: Failure)
    ensures
        r == meaning(e.kind, e.errno, kernel_icmp),
{
    if let ErrorKind::WouldBlock = e.kind {
        return Failure::Blocked;
    }
    if let Some(errno) = e.errno {
        if errno == emsgsize() {
            return Failure::TooBig;
        }
        if errno == enonet() {
            return Failure::Unreachable;
        }
    }
    if kernel_icmp {
        Failure::Unreachable
    } else {
        Failure::Unexpected
    }
}

/// What a failed send means: a socket that is full is blocked whatever else is said, number 90 says that it was too
/// long, and number 64 and errors that the kernel made of a message on the way say that nobody is there. Nobody expects
/// any other.
pub proof fn law_what_a_failed_send_means(kind: ErrorKind, errno: Option<i32>, kernel_icmp: bool)
    ensures
        meaning(kind, errno, kernel_icmp) is Blocked <==> kind is WouldBlock,
        meaning(kind, errno, kernel_icmp) is TooBig <==> !(kind is WouldBlock) && errno == Some(90i32),
        meaning(kind, errno, kernel_icmp) is Unreachable <==> !(kind is WouldBlock) && errno != Some(90i32) && (errno
            == Some(64i32) || kernel_icmp),
        meaning(kind, errno, kernel_icmp) is Unexpected <==> !(kind is WouldBlock) && errno != Some(90i32) && errno
            != Some(64i32) && !kernel_icmp,
{
}

} // verus!
