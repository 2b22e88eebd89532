//! What a reply channel costs, and what one turn of a reply socket does with its slot.
use vstd::arithmetic::mul::lemma_mul_upper_bound;
use vstd::layout::{align_of, size_of};
use vstd::prelude::*;

use crate::protocol::IoError;

verus! {

/// How many values a block of a channel is charged for.
pub const CHARGED_BLOCK_VALUES: u64 = 32;

/// How many values a block of a channel holds at least.
pub const VALUES_PER_BLOCK: u64 = 16;

/// How many blocks a channel keeps beside the filled ones.
pub const SPARE_BLOCKS: u64 = 3;

/// What a channel is charged for beside its blocks.
pub const CHANNEL_STATE_BYTES: u64 = 1024;

/// What a block is charged for beside its values, with machine words of `word` octets.
pub open spec fn block_header(word: int) -> int {
    word * 12
}

/// What a block is charged for beside its values.
pub fn block_header_bytes() -> (r: u64)
    ensures
        r == block_header(size_of::<usize>() as int),
{
    broadcast use vstd::layout::layout_of_primitives;

    core::mem::size_of::<usize>() as u64 * 12
}

/// How many blocks a channel has at most.
pub open spec fn blocks(depth: int, producers: int) -> int {
    (depth + 15) / 16 + (if producers < depth { producers } else { depth }) + 3
}

/// What one block is charged.
pub open spec fn block_charge(size: int, align: int, word: int) -> int {
    32 * size + block_header(word) + align
}

/// What a channel is charged.
pub open spec fn channel_charge(depth: int, producers: int, size: int, align: int, word: int) -> int {
    blocks(depth, producers) * block_charge(size, align, word) + 1024
}

/// A number, where it can be counted.
pub open spec fn countable(n: int) -> Option<u64> {
    if n <= u64::MAX {
        Some(n as u64)
    } else {
        None
    }
}

/// How many blocks a channel has at most.
pub fn blocks_for(depth: u64, producers: u64) -> (r: Option<u64>)
    ensures
        depth + 15 <= u64::MAX ==> r == countable(blocks(depth as int, producers as int)),
        depth + 15 > u64::MAX ==> r is None,
{
    let padded = match depth.checked_add(VALUES_PER_BLOCK - 1) {
        Some(padded) => padded,
        None => return None,
    };
    let contending: u64 = if producers < depth { producers } else { depth };
    match (padded / VALUES_PER_BLOCK).checked_add(contending) {
        Some(filled) => filled.checked_add(SPARE_BLOCKS),
        None => None,
    }
}

/// What `count` things of one size take.
pub fn linear_footprint(count: usize, bytes: u64) -> (r: Option<u64>)
    ensures
        r == countable(count * bytes),
{
    proof {
        assert(count * bytes >= 0) by (nonlinear_arith);
    }
    (count as u64).checked_mul(bytes)
}

proof fn lemma_blocks_cost(blocks: int, charge: int)
    requires
        blocks >= 3,
        charge >= 48,
    ensures
        blocks * charge >= blocks * 48,
        blocks * charge >= 3 * charge,
{
    assert(blocks * charge >= blocks * 48) by (nonlinear_arith)
        requires
            blocks >= 3,
            charge >= 48,
    ;
    assert(blocks * charge >= 3 * charge) by (nonlinear_arith)
        requires
            blocks >= 3,
            charge >= 48,
    ;
}

/// What a channel of `T` is charged, unless that cannot be counted.
pub fn channel_footprint<T>(depth: usize, producers: usize) -> (r: Option<u64>)
    ensures
        r == countable(
            channel_charge(
                depth as int,
                producers as int,
                size_of::<T>() as int,
                align_of::<T>() as int,
                size_of::<usize>() as int,
            ),
        ),
{
    broadcast use vstd::layout::layout_of_primitives;

    let size = core::mem::size_of::<T>() as u64;
    let align = core::mem::align_of::<T>() as u64;
    let header = block_header_bytes();
    proof {
        let count = blocks(depth as int, producers as int);
        let charge = block_charge(size as int, align as int, size_of::<usize>() as int);
        lemma_blocks_cost(count, charge);
        assert(count >= (depth + 15) / 16);
    }
    let values = match linear_footprint(CHARGED_BLOCK_VALUES as usize, size) {
        Some(values) => values,
        None => return None,
    };
    let headed = match values.checked_add(header) {
        Some(headed) => headed,
        None => return None,
    };
    let per_block = match headed.checked_add(align) {
        Some(per_block) => per_block,
        None => return None,
    };
    let count = match blocks_for(depth as u64, producers as u64) {
        Some(count) => count,
        None => return None,
    };
    match count.checked_mul(per_block) {
        Some(total) => total.checked_add(CHANNEL_STATE_BYTES),
        None => None,
    }
}

/// What a channel of replies is charged: the channel, and a payload for every slot and the one in hand.
pub open spec fn reply_charge(
    depth: int,
    producers: int,
    max_payload: int,
    size: int,
    align: int,
    word: int,
) -> int {
    channel_charge(depth, producers, size, align, word) + (depth + 1) * max_payload
}

/// What a channel of replies is charged, unless that cannot be counted.
pub fn reply_channel_footprint<T>(depth: usize, producers: usize, max_payload: u64) -> (r: Option<u64>)
    ensures
        r == countable(
            reply_charge(
                depth as int,
                producers as int,
                max_payload as int,
                size_of::<T>() as int,
                align_of::<T>() as int,
                size_of::<usize>() as int,
            ),
        ),
{
    broadcast use vstd::layout::layout_of_primitives;

    proof {
        assert((depth + 1) * max_payload >= 0) by (nonlinear_arith);
        let count = blocks(depth as int, producers as int);
        lemma_blocks_cost(
            count,
            block_charge(size_of::<T>() as int, align_of::<T>() as int, size_of::<usize>() as int),
        );
        assert(count >= (depth + 15) / 16);
    }
    let channel = match channel_footprint::<T>(depth, producers) {
        Some(channel) => channel,
        None => return None,
    };
    let held = match (depth as u64).checked_add(1) {
        Some(held) => held,
        None => return None,
    };
    match held.checked_mul(max_payload) {
        Some(payloads) => channel.checked_add(payloads),
        None => None,
    }
}

/// The depth a channel is built with: a channel has at least one slot.
pub fn built_depth(requested: usize) -> (r: usize)
    ensures
        r == if requested < 1 { 1 } else { requested },
{
    if requested < 1 {
        1
    } else {
        requested
    }
}

/// What a channel retains with blocks of `block_cap` values under contention: every filled block, one for every
/// sender that raced for the next, the spare ones, and the words of their headers.
pub open spec fn retained(
    depth: int,
    producers: int,
    size: int,
    align: int,
    block_cap: int,
    word: int,
) -> int {
    ((depth + block_cap - 1) / block_cap + (if producers < depth { producers } else { depth }) + 3) * (
    block_cap * size + 4 * word + align)
}

/// The charge covers what a channel retains, with blocks of 32 values and words of eight octets as well as with
/// blocks of 16 values and words of four octets, whichever of the two machines computes it.
pub proof fn law_charge_covers_what_is_retained(
    depth: int,
    producers: int,
    size: int,
    align: int,
    word: int,
)
    requires
        depth >= 0,
        producers >= 0,
        size >= 0,
        align >= 0,
        word == 4 || word == 8,
    ensures
        channel_charge(depth, producers, size, align, word) >= retained(depth, producers, size, align, 32, 8),
        channel_charge(depth, producers, size, align, word) >= retained(depth, producers, size, align, 16, 4),
{
    let contending = if producers < depth { producers } else { depth };
    let charged = blocks(depth, producers);
    let charge = block_charge(size, align, word);
    lemma_mul_upper_bound((depth + 31) / 32 + contending + 3, charged, 32 * size + 32 + align, charge);
    lemma_mul_upper_bound((depth + 15) / 16 + contending + 3, charged, 16 * size + 16 + align, charge);
}

/// A deeper channel with more senders is charged no less.
pub proof fn law_charge_grows(
    depth: int,
    producers: int,
    deeper: int,
    more: int,
    size: int,
    align: int,
    word: int,
)
    requires
        0 <= depth <= deeper,
        0 <= producers <= more,
        size >= 0,
        align >= 0,
        word >= 0,
    ensures
        channel_charge(depth, producers, size, align, word) <= channel_charge(deeper, more, size, align, word),
{
    let charge = block_charge(size, align, word);
    lemma_mul_upper_bound(blocks(depth, producers), blocks(deeper, more), charge, charge);
}

/// The charge of replies covers a full queue of payloads and the one in hand, beside the channel.
pub proof fn law_reply_charge_covers_payloads(
    depth: int,
    producers: int,
    max_payload: int,
    size: int,
    align: int,
    word: int,
)
    requires
        depth >= 0,
        producers >= 0,
        max_payload >= 0,
        size >= 0,
        align >= 0,
        word >= 0,
    ensures
        reply_charge(depth, producers, max_payload, size, align, word) - channel_charge(
            depth,
            producers,
            size,
            align,
            word,
        ) == depth * max_payload + max_payload,
{
    assert((depth + 1) * max_payload == depth * max_payload + max_payload) by (nonlinear_arith);
}

/// What one message of an error queue was.
#[derive(Debug, Clone, Copy, PartialEq, Eq, Structural)]
pub enum Drained {
    Remote,
    Local,
    Neither,
    Empty,
}

/// What becomes of a slot.
#[derive(Debug, Clone, Copy, PartialEq, Eq, Structural)]
pub enum Disposition {
    Send,
    Release,
}

/// What a socket that was said to be ready gave.
#[derive(Debug)]
pub enum Readiness<T> {
    Received(T),
    Stale,
    Errored,
    Failed(IoError),
}

/// Tells what an attempt to read gave. An attempt that would have blocked is stale; of the errors, `kernel_error`
/// picks those that the socket's error queue explains.
pub fn classify_readiness<T, W>(
    attempt: Result<Result<T, IoError>, W>,
    kernel_error: impl Fn(&IoError) -> bool,
) -> (r: Readiness<T>)
    requires
        forall|e: &IoError| kernel_error.requires((e,)),
    ensures
        match attempt {
            Ok(Ok(received)) => r == Readiness::Received(received),
            Ok(Err(e)) => {
                ||| r == Readiness::<T>::Errored && kernel_error.ensures((&e,), true)
                ||| r == Readiness::<T>::Failed(e) && kernel_error.ensures((&e,), false)
            },
            Err(_) => r == Readiness::<T>::Stale,
        },
{
    match attempt {
        Ok(Ok(received)) => Readiness::Received(received),
        Ok(Err(e)) => if kernel_error(&e) {
            Readiness::Errored
        } else {
            Readiness::Failed(e)
        },
        Err(_) => Readiness::Stale,
    }
}

/// What a socket gave, with the slot where one is still needed.
#[derive(Debug)]
pub enum Slotted<T, P> {
    Received(T, P),
    Errored(P),
    Stale,
    Failed(IoError),
}

/// Keeps the slot for what was received and for an error that is still to be read, and gives it back otherwise.
pub fn with_slot<T, P>(readiness: Readiness<T>, permit: P) -> (r: Slotted<T, P>)
    ensures
        r == (match readiness {
            Readiness::Received(received) => Slotted::Received(received, permit),
            Readiness::Errored => Slotted::Errored(permit),
            Readiness::Stale => Slotted::Stale,
            Readiness::Failed(e) => Slotted::Failed(e),
        }),
{
    match readiness {
        Readiness::Received(received) => Slotted::Received(received, permit),
        Readiness::Errored => Slotted::Errored(permit),
        Readiness::Stale => Slotted::Stale,
        Readiness::Failed(e) => Slotted::Failed(e),
    }
}

/// A socket's error queue.
pub trait ErrorSource {
    /// Every answer that the queue has given.
    ///
    /// What stands here is for one of which nothing is proved. One that is proved to keep what is asked of it says
    /// in its own words what it answered.
    open spec fn answers(&self) -> Seq<Result<Drained, IoError>> {
        Seq::empty()
    }

    /// Takes one message off the queue.
    fn next(&mut self) -> (r: Result<Drained, IoError>)
        ensures
            final(self).answers() == old(self).answers().push(r),
    ;
}

/// What came of asking an error queue once.
#[derive(Debug)]
pub enum Taken {
    Took { slot: Disposition },
    Failed(IoError),
}

/// A remote error is sent on; nothing else needs the slot.
pub open spec fn slot_for(drained: Drained) -> Disposition {
    if drained is Remote {
        Disposition::Send
    } else {
        Disposition::Release
    }
}

/// What an answer of an error queue comes to.
pub open spec fn taken(answer: Result<Drained, IoError>) -> Taken {
    match answer {
        Ok(drained) => Taken::Took { slot: slot_for(drained) },
        Err(e) => Taken::Failed(e),
    }
}

/// Asks an error queue exactly once.
pub fn take_one<S: ErrorSource>(source: &mut S) -> (r: Taken)
    ensures
        final(source).answers().len() == old(source).answers().len() + 1,
        final(source).answers().drop_last() == old(source).answers(),
        r == taken(final(source).answers().last()),
{
    let answer = source.next();
    assert(source.answers().drop_last() =~= old(source).answers());
    match answer {
        Ok(drained) => Taken::Took { slot: disposition(drained) },
        Err(e) => Taken::Failed(e),
    }
}

/// What becomes of the slot that was reserved for a message of the error queue.
pub fn disposition(drained: Drained) -> (r: Disposition)
    ensures
        r == slot_for(drained),
{
    match drained {
        Drained::Remote => Disposition::Send,
        Drained::Local | Drained::Neither | Drained::Empty => Disposition::Release,
    }
}

/// How a turn ended.
#[derive(Debug)]
pub enum Turned {
    Sent,
    Reported,
    Released,
    Cancelled,
    Closed,
    Failed(IoError),
}

/// A channel is charged for its blocks, of 32 values each, for a place in every block that a producer may be about to
/// fill, for three more, and for its own state. What a reply's payload takes comes on top, once for each place and once
/// more.
pub proof fn law_what_a_channel_is_charged(
    depth: int,
    producers: int,
    max_payload: int,
    size: int,
    align: int,
    word: int,
    contending: int,
)
    requires
        depth >= 0,
        producers >= 0,
        contending <= producers,
        contending <= depth,
        contending == producers || contending == depth,
    ensures
        block_header(word) == 12 * word,
        block_charge(size, align, word) == 32 * size + 12 * word + align,
        16 * (blocks(depth, producers) - contending - 3) >= depth,
        16 * (blocks(depth, producers) - contending - 3) < depth + 16,
        channel_charge(depth, producers, size, align, word) - 1024 == blocks(depth, producers) * block_charge(
            size,
            align,
            word,
        ),
        reply_charge(depth, producers, max_payload, size, align, word) == channel_charge(
            depth,
            producers,
            size,
            align,
            word,
        ) + depth * max_payload + max_payload,
{
    lemma_one_more_payload(depth, max_payload);
}

proof fn lemma_one_more_payload(depth: int, max_payload: int)
    ensures
        (depth + 1) * max_payload == depth * max_payload + max_payload,
{
    assert((depth + 1) * max_payload == depth * max_payload + max_payload) by (nonlinear_arith);
}

/// A charge is counted exactly where it fits.
pub proof fn law_a_charge_that_fits_is_counted(n: int)
    requires
        n >= 0,
    ensures
        countable(n) is Some <==> n <= u64::MAX,
        countable(n) is Some ==> countable(n)->0 == n,
{
}

/// Only an error that somebody on the way sent is sent on in the place that was kept for it. Any other gives the place
/// up, and a queue that could not be read fails as it did.
pub proof fn law_only_a_remote_error_takes_the_place(drained: Drained, error: IoError)
    ensures
        slot_for(drained) is Send <==> drained is Remote,
        slot_for(drained) is Release <==> !(drained is Remote),
        taken(Ok(drained)) == (Taken::Took { slot: slot_for(drained) }),
        taken(Err(error)) == Taken::Failed(error),
{
}

} // verus!
