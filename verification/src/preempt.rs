//! Writes that cancelling cuts short.
use vstd::prelude::*;

use crate::protocol::IoError;

verus! {

/// What became of a write.
pub enum Written {
    Done,
    Cancelled,
    Failed(IoError),
}

/// What became of a write. Nothing is said of one that cancelling came before.
pub fn written(result: Option<Result<(), IoError>>) -> (r: Written)
    ensures
        r == (match result {
            None => Written::Cancelled,
            Some(Ok(_)) => Written::Done,
            Some(Err(e)) => Written::Failed(e),
        }),
{
    match result {
        None => Written::Cancelled,
        Some(Ok(_)) => Written::Done,
        Some(Err(e)) => Written::Failed(e),
    }
}

} // verus!
