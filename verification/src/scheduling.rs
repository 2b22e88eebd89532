//! Which scheduling policy a thread is put back on.
use vstd::prelude::*;

verus! {

/// The ordinary fair policy.
pub const ORDINARY: i32 = 0;

/// The policy of batch work.
///
/// Reads `libc::SCHED_BATCH`, which is 3.
#[verifier::external_body]
fn sched_batch() -> (r: i32)
    ensures
        r == 3,
{
    libc::SCHED_BATCH
}

/// The policy of idle work.
///
/// Reads `libc::SCHED_IDLE`, which is 5.
#[verifier::external_body]
fn sched_idle() -> (r: i32)
    ensures
        r == 5,
{
    libc::SCHED_IDLE
}

/// The policy that a thread launched on a non-interactive one is put on; any other stays.
pub fn normalized(policy: i32) -> (r: Option<i32>)
    ensures
        r == (if policy == 3 || policy == 5 { Some(ORDINARY) } else { None }),
{
    if policy == sched_batch() || policy == sched_idle() {
        Some(ORDINARY)
    } else {
        None
    }
}

/// A thread that was put back needs no second change.
pub proof fn law_normalized_is_settled(policy: i32)
    ensures
        (if policy == 3 || policy == 5 { ORDINARY } else { policy }) != 3,
        (if policy == 3 || policy == 5 { ORDINARY } else { policy }) != 5,
{
}

/// A task that was put behind the others is scheduled like any other, by the policy numbered zero.
pub proof fn law_the_ordinary_policy_is_zero()
    ensures
        ORDINARY == 0,
{
}

} // verus!
