//! How a worker ended.
use vstd::prelude::*;

use crate::protocol::IoError;

verus! {

/// How a worker ended.
#[derive(Debug)]
pub enum Ended {
    /// As it was to.
    Expected,
    /// With something worth a line.
    Reported(String),
    /// With a failure.
    Failed { context: &'static str, error: IoError },
}

impl Ended {
    /// Whether the flow of a worker that ended goes on without it: the worker ended as it was to, nobody asked it to
    /// stop, and its client's side is open.
    pub open spec fn spec_detaches(&self, cancelled: bool, opened: bool) -> bool {
        *self is Expected && !cancelled && opened
    }

    /// Whether the flow of a worker that ended goes on without it.
    pub fn detaches(&self, cancelled: bool, opened: bool) -> (r: bool)
        ensures
            r == self.spec_detaches(cancelled, opened),
    {
        match self {
            Ended::Expected => !cancelled && opened,
            Ended::Reported(_) => false,
            Ended::Failed { .. } => false,
        }
    }
}

/// A flow goes on without its worker exactly where the worker's end was expected, nobody cancelled it, and it had been
/// opened.
pub proof fn law_who_goes_on_without_a_worker(ended: Ended, cancelled: bool, opened: bool)
    ensures
        ended.spec_detaches(cancelled, opened) ==> ended is Expected && !cancelled && opened,
        ended is Expected && !cancelled && opened ==> ended.spec_detaches(cancelled, opened),
{
}

} // verus!
