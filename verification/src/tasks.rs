//! Running tasks by name, and what became of them.
use vstd::prelude::*;

use crate::protocol::{plain_error, ErrorKind, ErrorState, IoError};

verus! {

/// What a result says.
pub open spec fn outcome(result: Result<(), IoError>) -> Result<(), ErrorState> {
    match result {
        Ok(_) => Ok(()),
        Err(error) => Err(error@),
    }
}

/// Two results in one: of two failures both are told, under the kind of the first.
pub open spec fn combined(
    first: Result<(), ErrorState>,
    second: Result<(), ErrorState>,
) -> Result<(), ErrorState> {
    match (first, second) {
        (Ok(_), second) => second,
        (Err(first), Ok(_)) => Err(first),
        (Err(first), Err(second)) => Err(plain_error(first.kind, first.message + "; "@ + second.message)),
    }
}

/// Puts two results together.
pub fn combine(first: Result<(), IoError>, second: Result<(), IoError>) -> (r: Result<(), IoError>)
    ensures
        outcome(r) == combined(outcome(first), outcome(second)),
        first is Ok ==> r == second,
        first is Err && second is Ok ==> r == first,
{
    match (first, second) {
        (Ok(_), second) => second,
        (Err(first), Ok(_)) => Err(first),
        (Err(first), Err(second)) => {
            let mut message = first.message;
            message.append("; ");
            message.append(second.message.as_str());
            Err(IoError::new(first.kind, message))
        },
    }
}

/// It does not matter how results are grouped when they are put together.
pub proof fn law_combining_groups_freely(
    a: Result<(), ErrorState>,
    b: Result<(), ErrorState>,
    c: Result<(), ErrorState>,
)
    ensures
        combined(combined(a, b), c) == combined(a, combined(b, c)),
{
    if let (Err(x), Err(y), Err(z)) = (a, b, c) {
        assert(x.message + "; "@ + y.message + "; "@ + z.message =~= x.message + "; "@ + (y.message + "; "@
            + z.message));
    }
}

/// Results in one, from the first on.
pub open spec fn all_combined(results: Seq<Result<(), ErrorState>>) -> Result<(), ErrorState>
    decreases results.len(),
{
    if results.len() == 0 {
        Ok(())
    } else {
        combined(all_combined(results.drop_last()), results.last())
    }
}

/// The messages of the failures among results, with semicolons between them.
pub open spec fn failures_text(results: Seq<Result<(), ErrorState>>) -> Seq<char>
    decreases results.len(),
{
    if results.len() == 0 {
        Seq::empty()
    } else {
        let before = failures_text(results.drop_last());
        match results.last() {
            Ok(_) => before,
            Err(error) => if all_combined(results.drop_last()) is Ok {
                error.message
            } else {
                before + "; "@ + error.message
            },
        }
    }
}

/// Putting results together keeps every failure: the whole succeeds only where each of them did, and else tells
/// the message of each that failed, in order.
pub proof fn law_every_failure_is_kept(results: Seq<Result<(), ErrorState>>)
    ensures
        all_combined(results) is Ok <==> forall|i: int| 0 <= i < results.len() ==> (#[trigger] results[i]) is Ok,
        all_combined(results) matches Err(error) ==> error.message == failures_text(results),
    decreases results.len(),
{
    if results.len() > 0 {
        let before = results.drop_last();
        law_every_failure_is_kept(before);
        if all_combined(before) is Ok {
            assert forall|i: int| 0 <= i < results.len() - 1 implies (#[trigger] results[i]) is Ok by {
                assert(before[i] is Ok);
            }
        } else {
            let i = choose|i: int| 0 <= i < before.len() && !((#[trigger] before[i]) is Ok);
            assert(!(results[i] is Ok));
        }
        assert(results[results.len() - 1] == results.last());
    }
}

/// How a task ended: its own result, or what is said of a task that did not run to its end.
pub open spec fn joined_outcome(
    name: Seq<char>,
    result: Result<Result<(), IoError>, String>,
) -> Result<(), ErrorState> {
    match result {
        Ok(result) => outcome(result),
        Err(e) => Err(plain_error(ErrorKind::Other, name + " task failed: "@ + e@)),
    }
}

/// How a task ended.
pub fn joined(name: &str, result: Result<Result<(), IoError>, String>) -> (r: Result<(), IoError>)
    ensures
        outcome(r) == joined_outcome(name@, result),
        result matches Ok(own) ==> r == own,
{
    match result {
        Ok(result) => result,
        Err(e) => {
            let mut message = name.to_owned();
            message.append(" task failed: ");
            message.append(e.as_str());
            Err(IoError::new(ErrorKind::Other, message))
        },
    }
}

/// What watching tasks came to.
pub enum Watched {
    Cancelled,
    Finished { name: &'static str, result: Result<(), IoError> },
}

/// Tasks by name. A handle is whatever stands for a running task.
pub struct Tasks<H> {
    running: Vec<(&'static str, H)>,
}

impl<H> Tasks<H> {
    /// The tasks, oldest first.
    pub closed spec fn spec_running(&self) -> Seq<(&'static str, H)> {
        self.running@
    }

    /// No tasks.
    pub fn new() -> (r: Self)
        ensures
            r.spec_running() == Seq::<(&'static str, H)>::empty(),
    {
        Tasks { running: Vec::new() }
    }

    /// Takes a task in.
    pub fn enroll(&mut self, name: &'static str, task: H)
        ensures
            final(self).spec_running() == old(self).spec_running().push((name, task)),
    {
        self.running.push((name, task));
    }

    /// How many tasks there are.
    pub fn len(&self) -> (r: usize)
        ensures
            r == self.spec_running().len(),
    {
        self.running.len()
    }

    /// The handle of the `i`th task.
    pub fn handle_mut(&mut self, i: usize) -> (r: &mut H)
        requires
            i < old(self).spec_running().len(),
        ensures
            *r == old(self).spec_running()[i as int].1,
            final(self).spec_running() == old(self).spec_running().update(
                i as int,
                (old(self).spec_running()[i as int].0, *final(r)),
            ),
    {
        &mut self.running[i].1
    }

    /// Tells which task ended, and how; it is running no more. Nothing ended where watching was cancelled first.
    pub fn watched(
        &mut self,
        finished: Option<(usize, Result<Result<(), IoError>, String>)>,
    ) -> (r: Watched)
        requires
            finished matches Some((index, _)) ==> index < old(self).spec_running().len(),
        ensures
            match finished {
                None => r is Cancelled && final(self).spec_running() == old(self).spec_running(),
                Some((index, result)) => {
                    &&& final(self).spec_running() == old(self).spec_running().remove(index as int)
                    &&& r matches Watched::Finished { name, result: told } && name
                        == old(self).spec_running()[index as int].0 && outcome(told) == joined_outcome(
                        name@,
                        result,
                    )
                },
            },
    {
        match finished {
            None => Watched::Cancelled,
            Some((index, result)) => {
                let (name, _) = self.running.remove(index);
                Watched::Finished { name, result: joined(name, result) }
            },
        }
    }

    /// Takes every task out, oldest first.
    pub fn take(&mut self) -> (r: Vec<(&'static str, H)>)
        ensures
            r@ == old(self).spec_running(),
            final(self).spec_running() == Seq::<(&'static str, H)>::empty(),
    {
        let mut taken: Vec<(&'static str, H)> = Vec::new();
        core::mem::swap(&mut taken, &mut self.running);
        taken
    }
}

/// What admitting a background task came to: whether it started, and what the ones that ended had to say.
pub struct Admitted {
    pub started: bool,
    pub reaped: Result<(), IoError>,
}

/// How a background task ended.
pub open spec fn completed_outcome(
    context: Seq<char>,
    joined: Result<(), String>,
) -> Result<(), ErrorState> {
    match joined {
        Ok(_) => Ok(()),
        Err(e) => Err(
            plain_error(ErrorKind::Other, "a "@ + context + " task did not complete: "@ + e@),
        ),
    }
}

/// How a background task ended.
pub fn completed(context: &str, joined: Result<(), String>) -> (r: Result<(), IoError>)
    ensures
        outcome(r) == completed_outcome(context@, joined),
{
    match joined {
        Ok(_) => Ok(()),
        Err(e) => {
            let mut message = "a ".to_owned();
            message.append(context);
            message.append(" task did not complete: ");
            message.append(e.as_str());
            Err(IoError::new(ErrorKind::Other, message))
        },
    }
}

/// How background tasks ended, each by itself.
pub open spec fn completions(
    context: Seq<char>,
    ended: Seq<Result<(), String>>,
) -> Seq<Result<(), ErrorState>> {
    Seq::new(ended.len(), |i: int| completed_outcome(context, ended[i]))
}

/// How background tasks ended, in one.
pub fn reaped(context: &str, ended: Vec<Result<(), String>>) -> (r: Result<(), IoError>)
    ensures
        outcome(r) == all_combined(completions(context@, ended@)),
{
    let ghost all = completions(context@, ended@);
    let ghost before = ended@;
    let mut ended = ended;
    let mut result: Result<(), IoError> = Ok(());
    let mut i: usize = 0;
    let count: usize = ended.len();
    assert(all.take(0) =~= Seq::empty());
    while i < count
        invariant
            i <= count,
            count == before.len(),
            ended@.len() == count - i,
            ended@ == before.subrange(i as int, count as int),
            all == completions(context@, before),
            outcome(result) == all_combined(all.take(i as int)),
        decreases count - i,
    {
        let one = ended.remove(0);
        let done = completed(context, one);
        result = combine(result, done);
        i += 1;
        proof {
            assert(ended@ =~= before.subrange(i as int, count as int));
            assert(all.take(i as int).drop_last() =~= all.take(i as int - 1));
            assert(all.take(i as int).last() == completed_outcome(context@, one));
        }
    }
    assert(all.take(count as int) =~= all);
    result
}

/// Whether a background task may start, and what the ended ones had to say. Where its owner has closed nothing
/// starts, and nothing is left to be told.
pub fn admitted(context: &str, open: bool, ended: Vec<Result<(), String>>) -> (r: Admitted)
    ensures
        r.started == open,
        outcome(r.reaped) == if open {
            all_combined(completions(context@, ended@))
        } else {
            Ok(())
        },
{
    if open {
        Admitted { started: true, reaped: reaped(context, ended) }
    } else {
        Admitted { started: false, reaped: Ok(()) }
    }
}

/// Two results together succeed exactly where both did. Of two failures the first gives the kind and both give their
/// messages, the first first. A single failure is told as it was.
pub proof fn law_two_results_make_one(first: Result<(), ErrorState>, second: Result<(), ErrorState>)
    ensures
        combined(first, second) is Ok <==> first is Ok && second is Ok,
        first is Ok ==> combined(first, second) == second,
        second is Ok && first is Err ==> combined(first, second) == first,
        first is Err && second is Err ==> {
            let both = combined(first, second)->Err_0;
            &&& both.kind == first->Err_0.kind
            &&& both.message == first->Err_0.message + "; "@ + second->Err_0.message
            &&& both.attached is None
            &&& both.errno is None
        },
{
}

/// A task's own result is its outcome. One that did not come to its end has failed, and its failure names it and says
/// why.
pub proof fn law_an_unfinished_task_has_failed(
    name: Seq<char>,
    result: Result<Result<(), IoError>, String>,
    joined: Result<(), String>,
)
    ensures
        result is Ok && result->Ok_0 is Ok ==> joined_outcome(name, result) is Ok,
        result is Ok && result->Ok_0 is Err ==> joined_outcome(name, result) == Err::<(), ErrorState>(
            result->Ok_0->Err_0@,
        ),
        result is Err ==> joined_outcome(name, result) is Err && joined_outcome(name, result)->Err_0.message == name
            + " task failed: "@ + result->Err_0@,
        joined is Ok <==> completed_outcome(name, joined) is Ok,
        joined is Err ==> completed_outcome(name, joined)->Err_0.message == "a "@ + name + " task did not complete: "@
            + joined->Err_0@,
{
}

} // verus!
