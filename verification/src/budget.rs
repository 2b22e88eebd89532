//! How many descriptors a session may use.
use vstd::prelude::*;

use crate::protocol::{plain_error, ErrorKind, ErrorState, IoError};
use crate::text::{decimal, push_field};

verus! {

/// How many descriptors only the resolver may use.
pub const ESSENTIAL_DNS_DESCRIPTORS: u32 = 1;

/// What a session may use.
#[derive(Clone, Copy, Debug, PartialEq, Eq, Structural)]
pub struct Totals {
    pub admission_id: u64,
    pub descriptor_total: u32,
    pub dns_descriptor_floor: u32,
}

/// What a session may use, and what that was made of.
#[derive(Clone, Copy, Debug, PartialEq, Eq, Structural)]
pub struct Measured {
    pub totals: Totals,
    pub soft_limit: u64,
    pub open: u64,
}

impl Measured {
    /// Says what a session may use.
    pub fn describe(&self) -> (r: String)
        ensures
            r@ == "RLIMIT_NOFILE "@ + decimal(self.soft_limit as nat) + " less "@ + decimal(self.open as nat)
                + " already open leaves "@ + decimal(self.totals.descriptor_total as nat)
                + " descriptors, "@ + decimal(self.totals.dns_descriptor_floor as nat)
                + " of them a floor only DNS may enter"@,
    {
        let mut out = String::new();
        push_field(&mut out, "RLIMIT_NOFILE ", self.soft_limit);
        proof {
            assert(Seq::<char>::empty() + "RLIMIT_NOFILE "@ =~= "RLIMIT_NOFILE "@);
        }
        push_field(&mut out, " less ", self.open);
        push_field(&mut out, " already open leaves ", self.totals.descriptor_total as u64);
        push_field(&mut out, " descriptors, ", self.totals.dns_descriptor_floor as u64);
        out.append(" of them a floor only DNS may enter");
        out
    }
}

/// Why nothing may be used: the limit is below what is open, beyond any that could be meant, or leaves too little.
pub open spec fn denial(soft_limit: u64, open: u64) -> Option<ErrorState> {
    let limit = "RLIMIT_NOFILE "@ + decimal(soft_limit as nat);
    if soft_limit < open {
        Some(
            plain_error(
                ErrorKind::Other,
                limit + " leaves no room for "@ + decimal(open as nat) + " open descriptors"@,
            ),
        )
    } else if soft_limit - open > u32::MAX {
        Some(
            plain_error(
                ErrorKind::Other,
                "implausible RLIMIT_NOFILE "@ + decimal(soft_limit as nat)
                    + ": out of range integral type conversion attempted"@,
            ),
        )
    } else if soft_limit - open < 1 {
        Some(
            plain_error(
                ErrorKind::Other,
                limit + " less "@ + decimal(open as nat) + " open descriptors leaves "@ + decimal(
                    (soft_limit - open) as nat,
                ) + " descriptors, which is smaller than the "@ + decimal(1)
                    + " the resolver floor requires"@,
            ),
        )
    } else {
        None
    }
}

fn limit_text(soft_limit: u64) -> (r: String)
    ensures
        r@ == "RLIMIT_NOFILE "@ + decimal(soft_limit as nat),
{
    let mut out = "RLIMIT_NOFILE ".to_owned();
    crate::text::push_decimal(&mut out, soft_limit);
    out
}

/// What a session may use of what the limit leaves beside the open descriptors.
pub fn measure(soft_limit: u64, open: u64, admission_id: u64) -> (r: Result<Measured, IoError>)
    ensures
        match denial(soft_limit, open) {
            Some(error) => r is Err && r->Err_0@ == error,
            None => r == Ok::<Measured, IoError>(
                Measured {
                    totals: Totals {
                        admission_id,
                        descriptor_total: (soft_limit - open) as u32,
                        dns_descriptor_floor: 1,
                    },
                    soft_limit,
                    open,
                },
            ),
        },
{
    if soft_limit < open {
        let mut message = limit_text(soft_limit);
        push_field(&mut message, " leaves no room for ", open);
        message.append(" open descriptors");
        return Err(IoError::new(ErrorKind::Other, message));
    }
    let left: u64 = soft_limit - open;
    if left > u32::MAX as u64 {
        let mut message = "implausible RLIMIT_NOFILE ".to_owned();
        crate::text::push_decimal(&mut message, soft_limit);
        message.append(": out of range integral type conversion attempted");
        return Err(IoError::new(ErrorKind::Other, message));
    }
    let descriptor_total: u32 = left as u32;
    if descriptor_total < ESSENTIAL_DNS_DESCRIPTORS {
        let mut message = limit_text(soft_limit);
        push_field(&mut message, " less ", open);
        push_field(&mut message, " open descriptors leaves ", left);
        push_field(
            &mut message,
            " descriptors, which is smaller than the ",
            ESSENTIAL_DNS_DESCRIPTORS as u64,
        );
        message.append(" the resolver floor requires");
        return Err(IoError::new(ErrorKind::Other, message));
    }
    Ok(
        Measured {
            totals: Totals {
                admission_id,
                descriptor_total,
                dns_descriptor_floor: ESSENTIAL_DNS_DESCRIPTORS,
            },
            soft_limit,
            open,
        },
    )
}

/// The resolver's floor is always within what a session may use.
pub proof fn law_floor_fits(soft_limit: u64, open: u64)
    requires
        denial(soft_limit, open) is None,
    ensures
        1 <= soft_limit - open <= u32::MAX,
{
}

/// A session is denied exactly where no descriptor is left below the limit, or more than can be counted.
pub proof fn law_when_a_session_is_denied(soft_limit: u64, open: u64)
    ensures
        denial(soft_limit, open) is None <==> open < soft_limit <= open + u32::MAX,
        denial(soft_limit, open) is Some ==> denial(soft_limit, open)->0.kind is Other,
{
}

/// Why a session was denied is told with the limit and with what is open.
pub proof fn law_why_a_session_was_denied_is_told(soft_limit: u64, open: u64)
    ensures
        soft_limit < open ==> denial(soft_limit, open)->0.message == "RLIMIT_NOFILE "@ + decimal(soft_limit as nat)
            + " leaves no room for "@ + decimal(open as nat) + " open descriptors"@,
        soft_limit > open + u32::MAX ==> denial(soft_limit, open)->0.message == "implausible RLIMIT_NOFILE "@ + decimal(
            soft_limit as nat,
        ) + ": out of range integral type conversion attempted"@,
{
}

} // verus!
