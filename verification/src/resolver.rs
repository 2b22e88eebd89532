//! A query of the system's resolver, from its submission to its answer.
use vstd::prelude::*;

use crate::protocol::{ErrorKind, IoError};

verus! {

/// Whose failure a failure is.
#[derive(Debug)]
pub enum Failure {
    /// The other side's.
    Expected(IoError),
    /// The daemon's own.
    Local { context: &'static str, error: IoError },
    /// The system's resolver's.
    Platform(IoError),
}

/// What waiting for one side of the resolver's socket came to.
#[derive(Debug)]
pub enum Side {
    /// It is open, and nothing is there yet.
    Pending,
    /// It is closed.
    Closed,
    Failed(IoError),
}

/// What polling a query came to.
#[derive(Debug)]
pub enum Polled {
    Pending,
    /// The answer is to be taken, and the query is over.
    Take,
    Failed(Failure),
}

/// Tells what polling a query came to. Its answer is there once either side of its socket is closed; the writing
/// side is asked only while the reading side is open. A query that is over is not polled.
pub fn polled(live: bool, reading: Side, writing: Side) -> (r: Polled)
    ensures
        if !live {
            r matches Polled::Failed(Failure::Local { context, error }) && context == "resolver.register"
                && error@ == crate::protocol::plain_error(
                ErrorKind::Other,
                "a resolver transaction polled after its own terminal"@,
            )
        } else {
            match reading {
                Side::Closed => r is Take,
                Side::Failed(error) => r == Polled::Failed(
                    Failure::Local { context: "resolver.register", error },
                ),
                Side::Pending => match writing {
                    Side::Closed => r is Take,
                    Side::Failed(error) => r == Polled::Failed(
                        Failure::Local { context: "resolver.register", error },
                    ),
                    Side::Pending => r is Pending,
                },
            }
        },
{
    if !live {
        let stale = IoError::other("a resolver transaction polled after its own terminal");
        return Polled::Failed(Failure::Local { context: "resolver.register", error: stale });
    }
    match reading {
        Side::Closed => Polled::Take,
        Side::Failed(error) => Polled::Failed(Failure::Local { context: "resolver.register", error }),
        Side::Pending => match writing {
            Side::Closed => Polled::Take,
            Side::Failed(error) => Polled::Failed(
                Failure::Local { context: "resolver.register", error },
            ),
            Side::Pending => Polled::Pending,
        },
    }
}

/// The system's number for an error that a call gave back with its sign turned.
pub fn negated_errno(result: i32) -> (r: Option<i32>)
    ensures
        r == (if i32::MIN < result < 0 {
            Some((-result) as i32)
        } else {
            None
        }),
{
    if result < 0 && result > i32::MIN {
        Some(-result)
    } else {
        None
    }
}

/// Takes the answer out of the buffer it was read into, of which `size` octets are it.
pub fn answer(size: usize, response: Vec<u8>) -> (r: Vec<u8>)
    requires
        size <= response@.len(),
    ensures
        r@ == response@.subrange(0, size as int),
{
    let mut response = response;
    response.truncate(size);
    response
}

} // verus!
