//! What becomes of a datagram when one of its fragments comes twice.
use vstd::prelude::*;

use crate::checksum::{ipv4_checksummed, ones_complement};
use crate::ip_wire::packet_error;
use crate::octets::be16;
use crate::packet_writer::{
    ipv4_refusal, ipv4_split, ipv6_fragments, ipv6_refusal, lemma_pieces, per_fragment, piece_end,
};
use crate::reassembly::{
    base, contexts_sound, fragment_of, joined, lemma_fragment_sound, lemma_joined, received, Fragment, Held, Reject,
    Step, TableState,
};
use crate::roundtrip::{
    answered, ipv4_key, ipv6_key, is_order, law_ipv4_fragments_reassemble, law_ipv6_fragments_reassemble,
    lemma_ipv4_keys, lemma_ipv6_keys,
};

verus! {

/// Whether a fragment is part of what is held of its datagram.
pub open spec fn holds(held: Held, f: Fragment) -> bool {
    &&& f.payload.len() > 0
    &&& forall|i: int| f.offset <= i < f.offset + f.payload.len() ==> #[trigger] held.covered.contains(i)
    &&& f.header is Some ==> held.header == f.header
}

/// Whether a packet is a fragment that a table holds.
pub open spec fn holds_packet(state: TableState, packet: Seq<u8>) -> bool {
    fragment_of(packet) matches Ok(f) && state.contexts.contains_key(f.key) && holds(state.contexts[f.key], f)
}

/// A fragment that waits is held, and what is held stays sound.
pub proof fn law_a_pending_fragment_is_held(state: TableState, packet: Seq<u8>, now: u64)
    requires
        contexts_sound(state.contexts),
        received(state, packet, now).1 is Pending,
    ensures
        holds_packet(received(state, packet, now).0, packet),
        contexts_sound(received(state, packet, now).0.contexts),
{
    lemma_fragment_sound(packet);
    let f = fragment_of(packet)->Ok_0;
    lemma_joined(state.contexts, f, now);
    let next = joined(base(state.contexts, f, now), f);
    let after = received(state, packet, now).0;
    assert(after.contexts == state.contexts.insert(f.key, next));
    assert forall|i: int| f.offset <= i < f.offset + f.payload.len() implies #[trigger] next.covered.contains(i) by {}
}

/// A fragment that is held stays held while others wait.
pub proof fn law_a_held_fragment_stays(state: TableState, held: Seq<u8>, packet: Seq<u8>, now: u64)
    requires
        contexts_sound(state.contexts),
        holds_packet(state, held),
        received(state, packet, now).1 is Pending,
    ensures
        holds_packet(received(state, packet, now).0, held),
{
    lemma_fragment_sound(held);
    lemma_fragment_sound(packet);
    let f = fragment_of(held)->Ok_0;
    let g = fragment_of(packet)->Ok_0;
    lemma_joined(state.contexts, g, now);
    let before = base(state.contexts, g, now);
    let next = joined(before, g);
    let after = received(state, packet, now).0;
    assert(after.contexts == state.contexts.insert(g.key, next));
    if g.key == f.key {
        assert forall|i: int| f.offset <= i < f.offset + f.payload.len() implies #[trigger] next.covered.contains(
            i,
        ) by {
            assert(before.covered.contains(i));
        }
        if f.header is Some && g.header is Some {
            assert(before.covered.contains(0));
        }
    }
}

/// A fragment that is held and comes once more is an overlap: everything that is held of its datagram is dropped, and
/// nothing else.
pub proof fn law_a_repeated_fragment_is_an_overlap(state: TableState, packet: Seq<u8>, now: u64)
    requires
        contexts_sound(state.contexts),
        holds_packet(state, packet),
    ensures
        received(state, packet, now).1 == Step::Refused(Reject::Overlap),
        received(state, packet, now).0.contexts == state.contexts.remove((fragment_of(packet)->Ok_0).key),
{
    lemma_fragment_sound(packet);
    let f = fragment_of(packet)->Ok_0;
    let held = state.contexts[f.key];
    let end = f.offset + f.payload.len();
    assert(held.sound(f.key));
    assert(held.covered.contains(f.offset));
    assert(held.covered.contains(end - 1));
    assert(end <= held.payload.len());
}

/// After a fragment of an IPv4 packet was held and came once more, the other fragments, in any order, all wait: the
/// packet is not completed without the fragment that was dropped.
pub proof fn law_a_repeated_ipv4_fragment_drops_its_packet(
    packet: Seq<u8>,
    mtu: usize,
    state: TableState,
    now: u64,
    order: Seq<int>,
    times: Seq<u64>,
)
    requires
        packet_error(packet) is None,
        packet[0] / 16 == 4,
        packet[6] < 128,
        be16(packet, 10) == ones_complement(ipv4_checksummed(packet)),
        ipv4_refusal(packet, mtu) is None,
        ipv4_split(packet, mtu).1 is None,
        ipv4_split(packet, mtu).0.len() >= 2,
        is_order(order, ipv4_split(packet, mtu).0.len() as int),
        contexts_sound(state.contexts),
        holds_packet(state, ipv4_split(packet, mtu).0[order.last()]),
    ensures
        ({
            let fragments = ipv4_split(packet, mtu).0;
            let (dropped, answer) = received(state, fragments[order.last()], now);
            &&& answer == Step::Refused(Reject::Overlap)
            &&& dropped.contexts == state.contexts.remove(ipv4_key(packet))
            &&& forall|j: int|
                0 <= j < fragments.len() - 1 ==> #[trigger] answered(dropped, fragments, order, times, j)
                    == Step::Pending
        }),
{
    let fragments = ipv4_split(packet, mtu).0;
    assert(order.last() == order[fragments.len() - 1]);
    lemma_ipv4_keys(packet, mtu, order.last());
    law_a_repeated_fragment_is_an_overlap(state, fragments[order.last()], now);
    let dropped = received(state, fragments[order.last()], now).0;
    law_ipv4_fragments_reassemble(packet, mtu, dropped, order, times);
}

/// After a fragment of an IPv6 packet was held and came once more, the other fragments, in any order, all wait: the
/// packet is not completed without the fragment that was dropped.
pub proof fn law_a_repeated_ipv6_fragment_drops_its_packet(
    packet: Seq<u8>,
    mtu: usize,
    identification: u32,
    state: TableState,
    now: u64,
    order: Seq<int>,
    times: Seq<u64>,
)
    requires
        packet_error(packet) is None,
        packet[0] / 16 == 6,
        ipv6_refusal(packet, mtu) is None,
        8 + piece_end(0, packet.len() - 40, per_fragment(mtu as int, 48)->0) <= 65535,
        is_order(
            order,
            ipv6_fragments(packet, identification, per_fragment(mtu as int, 48)->0, 0).len() as int,
        ),
        contexts_sound(state.contexts),
        holds_packet(
            state,
            ipv6_fragments(packet, identification, per_fragment(mtu as int, 48)->0, 0)[order.last()],
        ),
    ensures
        ({
            let fragments = ipv6_fragments(packet, identification, per_fragment(mtu as int, 48)->0, 0);
            let (dropped, answer) = received(state, fragments[order.last()], now);
            &&& answer == Step::Refused(Reject::Overlap)
            &&& dropped.contexts == state.contexts.remove(ipv6_key(packet, identification))
            &&& forall|j: int|
                0 <= j < fragments.len() - 1 ==> #[trigger] answered(dropped, fragments, order, times, j)
                    == Step::Pending
        }),
{
    let fragments = ipv6_fragments(packet, identification, per_fragment(mtu as int, 48)->0, 0);
    if fragments.len() == 0 {
        lemma_pieces(0, packet.len() - 40, per_fragment(mtu as int, 48)->0);
    }
    assert(order.last() == order[fragments.len() - 1]);
    lemma_ipv6_keys(packet, mtu, identification, order.last());
    law_a_repeated_fragment_is_an_overlap(state, fragments[order.last()], now);
    let dropped = received(state, fragments[order.last()], now).0;
    law_ipv6_fragments_reassemble(packet, mtu, identification, dropped, order, times);
}

} // verus!
