//! Handing one chunk over to the owner of a flow, and waiting until it was consumed.
use vstd::prelude::*;

verus! {

/// What a producer waits for.
#[derive(Clone, Copy, Debug, PartialEq, Eq, Structural)]
pub enum Stage {
    /// The mailbox takes the chunk.
    Chunk,
    /// The owner is told whose mailbox it is.
    Ready,
    /// The owner has consumed the chunk.
    Consumed,
}

/// Where a handover stands.
#[derive(Clone, Copy, Debug, PartialEq, Eq, Structural)]
pub enum Handover {
    Waiting(Stage),
    /// The chunk was consumed: the next one may be built.
    Consumed,
    /// The producer was cancelled, or the owner is gone. Whatever is in flight is the owner's to discard.
    Over,
}

/// How handing over one chunk after another ended.
#[derive(Clone, Copy, Debug, PartialEq, Eq, Structural)]
pub enum Handed {
    /// Every chunk was handed over and consumed.
    Complete,
    /// Cancelled on the way.
    Cancelled,
}

/// Where a handover stands after what its stage waited for happened, or failed, or cancelling came before it.
pub open spec fn stepped(stage: Stage, happened: Option<bool>) -> Handover {
    if happened != Some(true) {
        Handover::Over
    } else {
        match stage {
            Stage::Chunk => Handover::Waiting(Stage::Ready),
            Stage::Ready => Handover::Waiting(Stage::Consumed),
            Stage::Consumed => Handover::Consumed,
        }
    }
}

/// Takes what became of what a stage waited for: nothing, where cancelling came before it, and else whether it
/// happened.
pub fn step(stage: Stage, happened: Option<bool>) -> (r: Handover)
    ensures
        r == stepped(stage, happened),
{
    match happened {
        Some(true) => match stage {
            Stage::Chunk => Handover::Waiting(Stage::Ready),
            Stage::Ready => Handover::Waiting(Stage::Consumed),
            Stage::Consumed => Handover::Consumed,
        },
        _ => Handover::Over,
    }
}

/// A producer and its chunks, of which one exists at a time.
pub struct Producer {
    left: usize,
    stage: Option<Stage>,
    ended: Option<Handed>,
}

/// What a producer knows.
pub struct ProducerState {
    /// The chunks that were not built yet.
    pub left: nat,
    /// What the chunk that exists waits for.
    pub stage: Option<Stage>,
    pub ended: Option<Handed>,
}

impl View for Producer {
    type V = ProducerState;

    closed spec fn view(&self) -> ProducerState {
        ProducerState { left: self.left as nat, stage: self.stage, ended: self.ended }
    }
}

/// A producer that is to build its next chunk, or has handed the last one over.
pub open spec fn between(left: nat) -> ProducerState {
    if left == 0 {
        ProducerState { left, stage: None, ended: Some(Handed::Complete) }
    } else {
        ProducerState { left: (left - 1) as nat, stage: Some(Stage::Chunk), ended: None }
    }
}

/// A producer after what its chunk waited for happened, or did not.
pub open spec fn advanced(s: ProducerState, happened: Option<bool>) -> ProducerState {
    match s.stage {
        None => s,
        Some(stage) => match stepped(stage, happened) {
            Handover::Waiting(next) => ProducerState { stage: Some(next), ..s },
            Handover::Consumed => between(s.left),
            Handover::Over => ProducerState { left: s.left, stage: None, ended: Some(Handed::Cancelled) },
        },
    }
}

impl Producer {
    /// A producer of so many chunks. It builds the first one at once.
    pub fn new(chunks: usize) -> (r: Self)
        ensures
            r@ == between(chunks as nat),
    {
        if chunks == 0 {
            return Producer { left: 0, stage: None, ended: Some(Handed::Complete) };
        }
        Producer { left: chunks - 1, stage: Some(Stage::Chunk), ended: None }
    }

    /// What the chunk that exists waits for.
    pub fn stage(&self) -> (r: Option<Stage>)
        ensures
            r == self@.stage,
    {
        self.stage
    }

    /// How it ended, where it did.
    pub fn ended(&self) -> (r: Option<Handed>)
        ensures
            r == self@.ended,
    {
        self.ended
    }

    /// How many chunks were not built yet.
    pub fn left(&self) -> (r: usize)
        ensures
            r == self@.left,
    {
        self.left
    }

    /// Takes what became of what the chunk waited for. The next chunk is built once this one was consumed, and not
    /// before.
    pub fn advance(&mut self, happened: Option<bool>)
        ensures
            final(self)@ == advanced(old(self)@, happened),
    {
        let stage = match self.stage {
            Some(stage) => stage,
            None => return,
        };
        match step(stage, happened) {
            Handover::Waiting(next) => {
                self.stage = Some(next);
            },
            Handover::Consumed => {
                if self.left == 0 {
                    self.stage = None;
                    self.ended = Some(Handed::Complete);
                } else {
                    self.left -= 1;
                    self.stage = Some(Stage::Chunk);
                    self.ended = None;
                }
            },
            Handover::Over => {
                self.stage = None;
                self.ended = Some(Handed::Cancelled);
            },
        }
    }
}

/// A producer after a number of things happened to its chunks.
pub open spec fn after(s: ProducerState, happened: Seq<Option<bool>>) -> ProducerState
    decreases happened.len(),
{
    if happened.len() == 0 {
        s
    } else {
        advanced(after(s, happened.drop_last()), happened.last())
    }
}

/// The next chunk is built only when the one before it was consumed.
pub proof fn law_the_next_chunk_waits(s: ProducerState, happened: Option<bool>)
    ensures
        advanced(s, happened).left < s.left <==> s.left > 0 && s.stage == Some(Stage::Consumed) && happened == Some(
            true,
        ),
{
}

/// Every chunk was consumed where the handing over is complete, and that takes three things for each of them.
pub proof fn law_complete_means_every_chunk(chunks: nat, happened: Seq<Option<bool>>)
    ensures
        after(between(chunks), happened).ended == Some(Handed::Complete) ==> happened.len() >= 3 * chunks && (forall|
            i: int,
        |
            0 <= i < 3 * chunks ==> #[trigger] happened[i] == Some(true)),
{
    lemma_progress(chunks, happened);
}

/// How far a producer has come: the things that had to happen for where it stands.
spec fn progress(chunks: nat, s: ProducerState) -> int {
    match s.stage {
        Some(Stage::Chunk) => 3 * (chunks - s.left - 1),
        Some(Stage::Ready) => 3 * (chunks - s.left - 1) + 1,
        Some(Stage::Consumed) => 3 * (chunks - s.left - 1) + 2,
        None => 3 * (chunks as int),
    }
}

proof fn lemma_progress(chunks: nat, happened: Seq<Option<bool>>)
    ensures
        ({
            let s = after(between(chunks), happened);
            &&& s.stage is Some <==> s.ended is None
            &&& s.stage is Some ==> s.left < chunks
            &&& s.ended == Some(Handed::Complete) ==> s.left == 0
            &&& s.ended != Some(Handed::Cancelled) ==> 0 <= progress(chunks, s) <= happened.len() && forall|i: int|
                0 <= i < progress(chunks, s) ==> #[trigger] happened[i] == Some(true)
            &&& s.stage is Some ==> progress(chunks, s) == happened.len()
        }),
    decreases happened.len(),
{
    if happened.len() > 0 {
        let fewer = happened.drop_last();
        lemma_progress(chunks, fewer);
        let s = after(between(chunks), happened);
        assert forall|i: int| 0 <= i < fewer.len() implies happened[i] == #[trigger] fewer[i] by {}
        if s.ended != Some(Handed::Cancelled) {
            assert forall|i: int| 0 <= i < progress(chunks, s) implies #[trigger] happened[i] == Some(true) by {
                if i < fewer.len() {
                    assert(fewer[i] == happened[i]);
                }
            }
        }
    }
}

/// A chunk is handed over in three steps, each of which has to happen: it goes in, the other side is ready for it, and
/// it was taken. Then the next one goes in, or all are handed over where there is none. A step that does not happen
/// ends it.
pub proof fn law_a_chunk_is_handed_over_in_three_steps(left: nat, happened: Option<bool>)
    ensures
        ({
            let begun = between(left + 1);
            let ready = advanced(begun, Some(true));
            let taken = advanced(ready, Some(true));
            let over = advanced(taken, Some(true));
            &&& begun.stage == Some(Stage::Chunk) && begun.left == left && begun.ended is None
            &&& ready.stage == Some(Stage::Ready) && ready.left == left && ready.ended is None
            &&& taken.stage == Some(Stage::Consumed) && taken.left == left && taken.ended is None
            &&& left == 0 ==> over.stage is None && over.ended == Some(Handed::Complete)
            &&& left > 0 ==> over.stage == Some(Stage::Chunk) && over.left == left - 1 && over.ended is None
            &&& happened != Some(true) ==> {
                &&& advanced(begun, happened).ended == Some(Handed::Cancelled)
                &&& advanced(ready, happened).ended == Some(Handed::Cancelled)
                &&& advanced(taken, happened).ended == Some(Handed::Cancelled)
                &&& advanced(begun, happened).stage is None
            }
        }),
        between(0).ended == Some(Handed::Complete),
        between(0).stage is None,
{
}

} // verus!
