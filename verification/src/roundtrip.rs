//! What the fragments of a datagram reassemble to, whatever order they arrive in.
use vstd::prelude::*;

use crate::addr::IpAddr;
use crate::checksum::{ipv4_checksummed, ones_complement};
use crate::ip_wire::{ipv4_fields, ipv4_header_fits, ipv6_fields, packet_error, Ipv4Fields};
use crate::octets::{
    be16, law_read_back_u16, law_read_back_u32, lemma_be128_same, lemma_be_bounds, lemma_same_u16,
    lemma_same_u32, oct2, oct4,
};
use crate::packet_writer::{
    ipv4_fragment_fields, ipv4_fragments, ipv4_header_sealed, ipv4_refusal, ipv4_split, ipv6_fragment,
    ipv6_fragments, ipv6_refusal, lemma_pieces, lemma_sealed, per_fragment, piece_end, pieces,
};
use crate::reassembly::{
    assembled, base, fragment_of, joined, max_body, offsets, overlaps, received, step, Fragment, Held, Key, Reject,
    Step,
    TableState,
};

verus! {

/// Whether `cuts` are consecutive pieces of a body of `len` octets.
pub open spec fn tiles(cuts: Seq<(int, int)>, len: int) -> bool {
    &&& cuts.len() > 0
    &&& cuts[0].0 == 0
    &&& cuts.last().1 == len
    &&& forall|k: int| #![trigger cuts[k]] 0 <= k < cuts.len() ==> 0 <= cuts[k].0 < cuts[k].1 <= len
    &&& forall|k: int| #![trigger cuts[k]] 0 <= k < cuts.len() - 1 ==> cuts[k].1 == cuts[k + 1].0
}

/// The fragment that carries one piece of a body.
pub open spec fn part(key: Key, header: Seq<u8>, body: Seq<u8>, cuts: Seq<(int, int)>, k: int) -> Fragment {
    Fragment {
        key,
        offset: cuts[k].0,
        more: k < cuts.len() - 1,
        header: if k == 0 { Some(header) } else { None },
        payload: body.subrange(cuts[k].0, cuts[k].1),
    }
}

/// Whether `order` names every piece of `n` once.
pub open spec fn is_order(order: Seq<int>, n: int) -> bool {
    &&& order.len() == n
    &&& order.no_duplicates()
    &&& forall|i: int| #![trigger order[i]] 0 <= i < n ==> 0 <= order[i] < n
    &&& forall|k: int| 0 <= k < n ==> #[trigger] order.contains(k)
}

/// What is held after the first `j` fragments of `order`, the `i`th of them taken at `times[i]`.
spec fn after(
    contexts: Map<Key, Held>,
    parts: Seq<Fragment>,
    order: Seq<int>,
    times: Seq<u64>,
    j: int,
) -> Map<Key, Held>
    decreases j,
{
    if j <= 0 {
        contexts
    } else {
        step(after(contexts, parts, order, times, j - 1), parts[order[j - 1]], times[j - 1]).0
    }
}

/// What became of the fragment at place `j` of `order`.
spec fn became(
    contexts: Map<Key, Held>,
    parts: Seq<Fragment>,
    order: Seq<int>,
    times: Seq<u64>,
    j: int,
) -> Step {
    step(after(contexts, parts, order, times, j), parts[order[j]], times[j]).1
}

/// A table after the first `j` packets of `order`, the `i`th of them taken at `times[i]`.
pub open spec fn table_after(
    state: TableState,
    packets: Seq<Seq<u8>>,
    order: Seq<int>,
    times: Seq<u64>,
    j: int,
) -> TableState
    decreases j,
{
    if j <= 0 {
        state
    } else {
        received(table_after(state, packets, order, times, j - 1), packets[order[j - 1]], times[j - 1]).0
    }
}

/// What a table answers to the packet at place `j` of `order`.
pub open spec fn answered(
    state: TableState,
    packets: Seq<Seq<u8>>,
    order: Seq<int>,
    times: Seq<u64>,
    j: int,
) -> Step {
    received(table_after(state, packets, order, times, j), packets[order[j]], times[j]).1
}

proof fn lemma_table(
    state: TableState,
    packets: Seq<Seq<u8>>,
    parts: Seq<Fragment>,
    order: Seq<int>,
    times: Seq<u64>,
    j: int,
)
    requires
        packets.len() == parts.len(),
        is_order(order, packets.len() as int),
        0 <= j <= packets.len(),
        forall|k: int|
            0 <= k < packets.len() ==> fragment_of(#[trigger] packets[k]) == Ok::<Fragment, Reject>(parts[k]),
    ensures
        table_after(state, packets, order, times, j).contexts == after(state.contexts, parts, order, times, j),
        forall|i: int|
            0 <= i < j ==> #[trigger] answered(state, packets, order, times, i) == became(
                state.contexts,
                parts,
                order,
                times,
                i,
            ),
    decreases j,
{
    if j > 0 {
        lemma_table(state, packets, parts, order, times, j - 1);
        assert(fragment_of(packets[order[j - 1]]) == Ok::<Fragment, Reject>(parts[order[j - 1]]));
    }
}

spec fn taken(order: Seq<int>, j: int, k: int) -> bool {
    exists|i: int| 0 <= i < j && #[trigger] order[i] == k
}

spec fn inside(cuts: Seq<(int, int)>, order: Seq<int>, j: int, x: int) -> bool {
    exists|k: int| 0 <= k < cuts.len() && #[trigger] taken(order, j, k) && cuts[k].0 <= x < cuts[k].1
}

spec fn progress(
    held: Held,
    header: Seq<u8>,
    body: Seq<u8>,
    cuts: Seq<(int, int)>,
    order: Seq<int>,
    j: int,
) -> bool {
    &&& forall|x: int| #[trigger] held.covered.contains(x) <==> inside(cuts, order, j, x)
    &&& held.payload.len() <= body.len()
    &&& forall|x: int|
        #[trigger] held.covered.contains(x) ==> 0 <= x < held.payload.len() && held.payload[x] == body[x]
    &&& held.header == (if taken(order, j, 0) { Some(header) } else { None })
    &&& held.total == (if taken(order, j, cuts.len() - 1) { Some(body.len() as int) } else { None })
}

proof fn lemma_tiles_order(cuts: Seq<(int, int)>, len: int, a: int, b: int)
    requires
        tiles(cuts, len),
        0 <= a < b < cuts.len(),
    ensures
        cuts[a].1 <= cuts[b].0,
    decreases b - a,
{
    if a + 1 < b {
        lemma_tiles_order(cuts, len, a, b - 1);
        assert(cuts[b - 1].1 == cuts[b].0);
    } else {
        assert(cuts[a].1 == cuts[a + 1].0);
    }
}

proof fn lemma_apart(cuts: Seq<(int, int)>, len: int, a: int, b: int, x: int)
    requires
        tiles(cuts, len),
        0 <= a < cuts.len(),
        0 <= b < cuts.len(),
        cuts[a].0 <= x < cuts[a].1,
        cuts[b].0 <= x < cuts[b].1,
    ensures
        a == b,
{
    if a < b {
        lemma_tiles_order(cuts, len, a, b);
    } else if b < a {
        lemma_tiles_order(cuts, len, b, a);
    }
}

proof fn lemma_in_some(cuts: Seq<(int, int)>, len: int, n: int, x: int) -> (k: int)
    requires
        tiles(cuts, len),
        0 < n <= cuts.len(),
        0 <= x < cuts[n - 1].1,
    ensures
        0 <= k < n,
        cuts[k].0 <= x < cuts[k].1,
    decreases n,
{
    if x >= cuts[n - 1].0 {
        n - 1
    } else {
        if n >= 2 {
            assert(cuts[n - 2].1 == cuts[n - 1].0);
        }
        lemma_in_some(cuts, len, n - 1, x)
    }
}

proof fn lemma_taken_next(order: Seq<int>, j: int, k: int)
    requires
        0 <= j < order.len(),
    ensures
        taken(order, j + 1, k) == (taken(order, j, k) || order[j] == k),
{
    if taken(order, j + 1, k) {
        let i = choose|i: int| 0 <= i < j + 1 && #[trigger] order[i] == k;
        if i < j {
            assert(order[i] == k);
        }
    }
    if taken(order, j, k) {
        let i = choose|i: int| 0 <= i < j && #[trigger] order[i] == k;
        assert(order[i] == k);
    }
}

/// One more fragment of a datagram joins what is held of it.
proof fn lemma_join(
    held: Held,
    key: Key,
    header: Seq<u8>,
    body: Seq<u8>,
    cuts: Seq<(int, int)>,
    order: Seq<int>,
    j: int,
)
    requires
        tiles(cuts, body.len() as int),
        is_order(order, cuts.len() as int),
        0 <= j < cuts.len(),
        progress(held, header, body, cuts, order, j),
    ensures
        ({
            let f = part(key, header, body, cuts, order[j]);
            &&& !overlaps(held.covered, f.offset, f.offset + f.payload.len())
            &&& progress(joined(held, f), header, body, cuts, order, j + 1)
            &&& joined(held, f).complete() == (j == cuts.len() - 1)
            &&& j == cuts.len() - 1 ==> joined(held, f).payload == body && joined(held, f).header == Some(
                header,
            )
        }),
{
    let k = order[j];
    let f = part(key, header, body, cuts, k);
    let end = f.offset + f.payload.len();
    let next = joined(held, f);
    let len = body.len() as int;
    let n = cuts.len() as int;
    assert(!taken(order, j, k)) by {
        if taken(order, j, k) {
            let i = choose|i: int| 0 <= i < j && #[trigger] order[i] == k;
            assert(order[i] != order[j]);
        }
    }
    if overlaps(held.covered, f.offset, end) {
        let x = choose|x: int| f.offset <= x < end && #[trigger] held.covered.contains(x);
        let a = choose|a: int| 0 <= a < n && #[trigger] taken(order, j, a) && cuts[a].0 <= x < cuts[a].1;
        lemma_apart(cuts, len, a, k, x);
    }
    assert forall|x: int| #[trigger] next.covered.contains(x) <==> inside(cuts, order, j + 1, x) by {
        if inside(cuts, order, j, x) {
            let a = choose|a: int| 0 <= a < n && #[trigger] taken(order, j, a) && cuts[a].0 <= x < cuts[a].1;
            lemma_taken_next(order, j, a);
            assert(taken(order, j + 1, a));
        }
        if cuts[k].0 <= x < cuts[k].1 {
            lemma_taken_next(order, j, k);
            assert(taken(order, j + 1, k));
        }
        if inside(cuts, order, j + 1, x) {
            let a = choose|a: int| 0 <= a < n && #[trigger] taken(order, j + 1, a) && cuts[a].0 <= x < cuts[a].1;
            lemma_taken_next(order, j, a);
            if taken(order, j, a) {
                assert(inside(cuts, order, j, x));
            }
        }
        assert(held.covered.contains(x) <==> inside(cuts, order, j, x));
    }
    assert forall|x: int| #[trigger] next.covered.contains(x) implies 0 <= x < next.payload.len()
        && next.payload[x] == body[x] by {
        if !(f.offset <= x < end) {
            assert(held.covered.contains(x));
        }
    }
    lemma_taken_next(order, j, 0);
    lemma_taken_next(order, j, n - 1);
    assert(next.header == (if taken(order, j + 1, 0) { Some(header) } else { None }));
    assert(next.total == (if taken(order, j + 1, n - 1) { Some(len) } else { None }));
    if j < n - 1 {
        let last = order[n - 1];
        assert(!taken(order, j + 1, last)) by {
            if taken(order, j + 1, last) {
                let i = choose|i: int| 0 <= i < j + 1 && #[trigger] order[i] == last;
                assert(order[i] != order[n - 1]);
            }
        }
        let x = cuts[last].0;
        if next.complete() {
            assert(offsets(0, len).contains(x));
            assert(next.covered.contains(x));
            let a = choose|a: int| 0 <= a < n && #[trigger] taken(order, j + 1, a) && cuts[a].0 <= x < cuts[a].1;
            lemma_apart(cuts, len, a, last, x);
        }
    } else {
        assert forall|a: int| 0 <= a < n implies #[trigger] taken(order, n, a) by {
            assert(order.contains(a));
            let i = choose|i: int| 0 <= i < order.len() && order[i] == a;
            assert(order[i] == a);
        }
        assert(taken(order, n, 0) && taken(order, n, n - 1));
        assert forall|x: int| next.covered.contains(x) == offsets(0, len).contains(x) by {
            if offsets(0, len).contains(x) {
                let a = lemma_in_some(cuts, len, n, x);
                assert(taken(order, n, a));
                assert(inside(cuts, order, n, x));
            }
        }
        assert(next.covered =~= offsets(0, len));
        assert(next.covered.contains(len - 1));
        assert forall|x: int| 0 <= x < len implies next.payload[x] == body[x] by {
            assert(next.covered.contains(x));
        }
        assert(next.payload =~= body);
    }
}

/// Fragments that tile a body complete it with the last of them to arrive, whatever their order, and leave
/// everything else that is held alone.
proof fn lemma_any_order(
    contexts: Map<Key, Held>,
    key: Key,
    header: Seq<u8>,
    body: Seq<u8>,
    cuts: Seq<(int, int)>,
    order: Seq<int>,
    times: Seq<u64>,
    j: int,
)
    requires
        tiles(cuts, body.len() as int),
        is_order(order, cuts.len() as int),
        0 <= j <= cuts.len(),
        !contexts.contains_key(key),
        body.len() <= max_body(key),
        key.source is V4 ==> header.len() + body.len() <= 65535,
    ensures
        ({
            let parts = Seq::new(cuts.len(), |k: int| part(key, header, body, cuts, k));
            let now = after(contexts, parts, order, times, j);
            &&& j == 0 || j == cuts.len() ==> now == contexts
            &&& 0 < j < cuts.len() ==> now.contains_key(key) && now.remove(key) == contexts && progress(
                now[key],
                header,
                body,
                cuts,
                order,
                j,
            )
            &&& forall|i: int|
                0 <= i < j ==> #[trigger] became(contexts, parts, order, times, i) == (if i < cuts.len() - 1 {
                    Step::Pending
                } else {
                    Step::Complete(assembled(header, body))
                })
        }),
    decreases j,
{
    if j > 0 {
        lemma_any_order(contexts, key, header, body, cuts, order, times, j - 1);
        let parts = Seq::new(cuts.len(), |k: int| part(key, header, body, cuts, k));
        let now = after(contexts, parts, order, times, j - 1);
        let k = order[j - 1];
        let f = parts[k];
        let held = base(now, f, times[j - 1]);
        let n = cuts.len() as int;
        let len = body.len() as int;
        assert(f == part(key, header, body, cuts, k));
        if j == 1 {
            assert(now == contexts);
            assert forall|x: int| #[trigger] held.covered.contains(x) <==> inside(cuts, order, 0, x) by {}
            assert(!taken(order, 0, 0) && !taken(order, 0, n - 1));
        }
        assert(progress(held, header, body, cuts, order, j - 1));
        lemma_join(held, key, header, body, cuts, order, j - 1);
        let next = joined(held, f);
        if k < n - 1 {
            lemma_tiles_order(cuts, len, k, n - 1);
        }
        assert(f.offset + f.payload.len() == cuts[k].1);
        let then = after(contexts, parts, order, times, j);
        if j < n {
            assert(then == now.insert(key, next));
            assert(then.remove(key) =~= contexts);
        } else {
            assert(then == now.remove(key));
            assert(then =~= contexts);
        }
        assert forall|i: int| 0 <= i < j implies #[trigger] became(contexts, parts, order, times, i) == (if i < n
            - 1 {
            Step::Pending
        } else {
            Step::Complete(assembled(header, body))
        }) by {
            if i == j - 1 {
                assert(became(contexts, parts, order, times, i) == step(now, f, times[i]).1);
            }
        }
    }
}

/// The reassembly key of the IPv6 fragments of a packet.
pub open spec fn ipv6_key(packet: Seq<u8>, identification: u32) -> Key {
    Key {
        source: IpAddr::V6(ipv6_fields(packet).source),
        destination: IpAddr::V6(ipv6_fields(packet).destination),
        identification,
        protocol: 0,
    }
}

/// Whether `f` is laid out as the IPv6 fragment of a packet that carries one piece.
spec fn ipv6_laid_out(f: Seq<u8>, packet: Seq<u8>, identification: u32, piece: (int, int)) -> bool {
    let t = f.subrange(40, f.len() as int);
    &&& f.len() == 48 + piece.1 - piece.0
    &&& f[6] == 44
    &&& forall|i: int| 0 <= i < 40 && i != 4 && i != 5 && i != 6 ==> #[trigger] f[i] == packet[i]
    &&& f.subrange(4, 6) == oct2(8 + piece.1 - piece.0)
    &&& t[0] == packet[6]
    &&& t.subrange(2, 4) == oct2(piece.0 + if piece.1 < packet.len() - 40 { 1int } else { 0 })
    &&& t.subrange(4, 8) == oct4(identification as int)
    &&& t.subrange(8, t.len() as int) == packet.subrange(40, packet.len() as int).subrange(piece.0, piece.1)
}

proof fn lemma_ipv6_laid_out(packet: Seq<u8>, identification: u32, piece: (int, int))
    requires
        packet.len() >= 40,
        0 <= piece.0 < piece.1 <= packet.len() - 40,
        piece.0 < 65536,
        8 + piece.1 - piece.0 <= 65535,
    ensures
        ipv6_laid_out(ipv6_fragment(packet, identification, piece), packet, identification, piece),
{
    reveal(ipv6_fragment);
    let f = ipv6_fragment(packet, identification, piece);
    let payload = packet.subrange(40, packet.len() as int);
    let t = f.subrange(40, f.len() as int);
    let control = piece.0 + if piece.1 < packet.len() - 40 { 1int } else { 0 };
    assert(f.len() == 48 + piece.1 - piece.0);
    assert(f.subrange(4, 6) =~= oct2(8 + piece.1 - piece.0));
    assert(t.subrange(2, 4) =~= oct2(control));
    assert(t.subrange(4, 8) =~= oct4(identification as int));
    assert(t.subrange(8, t.len() as int) =~= payload.subrange(piece.0, piece.1));
}

proof fn lemma_control(t: Seq<u8>, start: int, more: bool)
    requires
        t.len() >= 4,
        0 <= start < 65536,
        start % 8 == 0,
        t.subrange(2, 4) == oct2(start + if more { 1int } else { 0 }),
    ensures
        be16(t, 2) / 8 * 8 == start,
        (t[3] % 2 == 1) == more,
{
    let control = start + if more { 1int } else { 0 };
    law_read_back_u16(t, 2, control);
    assert(t[3] == t.subrange(2, 4)[1]);
    assert(t[3] == control % 256);
}

proof fn lemma_ipv6_part(f: Seq<u8>, packet: Seq<u8>, identification: u32, piece: (int, int))
    requires
        packet_error(packet) is None,
        packet[0] / 16 == 6,
        0 <= piece.0 < piece.1 <= packet.len() - 40,
        piece.0 % 8 == 0,
        piece.1 < packet.len() - 40 ==> (piece.1 - piece.0) % 8 == 0,
        8 + piece.1 - piece.0 <= 65535,
        ipv6_laid_out(f, packet, identification, piece),
    ensures
        fragment_of(f) == Ok::<Fragment, crate::reassembly::Reject>(
            Fragment {
                key: ipv6_key(packet, identification),
                offset: piece.0,
                more: piece.1 < packet.len() - 40,
                header: if piece.0 == 0 { Some(f.subrange(0, 40).update(6, packet[6])) } else { None },
                payload: packet.subrange(40, packet.len() as int).subrange(piece.0, piece.1),
            },
        ),
{
    let t = f.subrange(40, f.len() as int);
    let size = piece.1 - piece.0;
    law_read_back_u16(f, 4, 8 + size);
    assert(f[0] == packet[0]);
    lemma_be128_same(f, packet, 8);
    lemma_be128_same(f, packet, 24);
    law_read_back_u32(t, 4, identification as int);
    assert(be16(packet, 4) + 40 == packet.len());
    lemma_control(t, piece.0, piece.1 < packet.len() - 40);
    assert(packet_error(f) is None);
}

proof fn lemma_ipv6_whole(packet: Seq<u8>, header: Seq<u8>)
    requires
        packet_error(packet) is None,
        packet[0] / 16 == 6,
        header.len() == 40,
        forall|i: int| 0 <= i < 40 && i != 4 && i != 5 ==> #[trigger] header[i] == packet[i],
    ensures
        assembled(header, packet.subrange(40, packet.len() as int)) == packet,
{
    let body = packet.subrange(40, packet.len() as int);
    assert(be16(packet, 4) == body.len());
    lemma_same_u16(packet, 4);
    assert(packet[4] == packet.subrange(4, 6)[0] && packet[5] == packet.subrange(4, 6)[1]);
    assert((header + body)[0] == packet[0]);
    assert(assembled(header, body) =~= packet);
}

/// The fragments of an IPv6 packet, taken in any order by a table that holds nothing of them, wait until the
/// last of them arrives and then give the packet back. The first must be small enough for its length field.
pub proof fn law_ipv6_fragments_reassemble(
    packet: Seq<u8>,
    mtu: usize,
    identification: u32,
    state: TableState,
    order: Seq<int>,
    times: Seq<u64>,
)
    requires
        packet_error(packet) is None,
        packet[0] / 16 == 6,
        ipv6_refusal(packet, mtu) is None,
        8 + piece_end(0, packet.len() - 40, per_fragment(mtu as int, 48)->0) <= 65535,
        !state.contexts.contains_key(ipv6_key(packet, identification)),
        is_order(
            order,
            ipv6_fragments(packet, identification, per_fragment(mtu as int, 48)->0, 0).len() as int,
        ),
    ensures
        ({
            let fragments = ipv6_fragments(packet, identification, per_fragment(mtu as int, 48)->0, 0);
            &&& forall|j: int|
                0 <= j < fragments.len() ==> #[trigger] answered(state, fragments, order, times, j) == (if j
                    < fragments.len() - 1 {
                    Step::Pending
                } else {
                    Step::Complete(packet)
                })
            &&& table_after(state, fragments, order, times, fragments.len() as int).contexts == state.contexts
        }),
{
    let per = per_fragment(mtu as int, 48)->0;
    let fragments = ipv6_fragments(packet, identification, per, 0);
    let cuts = pieces(0, packet.len() - 40, per);
    let body = packet.subrange(40, packet.len() as int);
    let key = ipv6_key(packet, identification);
    let header = ipv6_opening(packet, identification, cuts[0]);
    let parts = Seq::new(fragments.len(), |k: int| fragment_of(fragments[k])->Ok_0);
    let model = Seq::new(cuts.len(), |k: int| part(key, header, body, cuts, k));
    lemma_ipv6_parts(packet, identification, per);
    assert(parts =~= model) by {
        assert forall|k: int| 0 <= k < cuts.len() implies parts[k] == model[k] by {
            assert(fragment_of(fragments[k]) is Ok);
        }
    }
    lemma_any_order(state.contexts, key, header, body, cuts, order, times, cuts.len() as int);
    lemma_table(state, fragments, parts, order, times, cuts.len() as int);
    lemma_ipv6_whole(packet, header);
}

/// The header that the first IPv6 fragment opens a datagram with.
spec fn ipv6_opening(packet: Seq<u8>, identification: u32, piece: (int, int)) -> Seq<u8> {
    ipv6_fragment(packet, identification, piece).subrange(0, 40).update(6, packet[6])
}

proof fn lemma_ipv6_parts(packet: Seq<u8>, identification: u32, per: int)
    requires
        packet_error(packet) is None,
        packet[0] / 16 == 6,
        packet.len() > 40,
        per > 0,
        per % 8 == 0,
        8 + piece_end(0, packet.len() - 40, per) <= 65535,
    ensures
        ({
            let fragments = ipv6_fragments(packet, identification, per, 0);
            let cuts = pieces(0, packet.len() - 40, per);
            let body = packet.subrange(40, packet.len() as int);
            let key = ipv6_key(packet, identification);
            let header = ipv6_opening(packet, identification, cuts[0]);
            &&& fragments.len() == cuts.len()
            &&& tiles(cuts, body.len() as int)
            &&& body.len() <= 65535
            &&& forall|k: int|
                0 <= k < cuts.len() ==> (#[trigger] fragment_of(fragments[k])) == Ok::<
                    Fragment,
                    crate::reassembly::Reject,
                >(part(key, header, body, cuts, k))
            &&& header.len() == 40
            &&& forall|i: int| 0 <= i < 40 && i != 4 && i != 5 ==> #[trigger] header[i] == packet[i]
        }),
{
    let fragments = ipv6_fragments(packet, identification, per, 0);
    let cuts = pieces(0, packet.len() - 40, per);
    let body = packet.subrange(40, packet.len() as int);
    let key = ipv6_key(packet, identification);
    let header = ipv6_opening(packet, identification, cuts[0]);
    let n = cuts.len() as int;
    lemma_pieces(0, packet.len() - 40, per);
    assert(be16(packet, 4) + 40 == packet.len());
    assert(tiles(cuts, body.len() as int));
    assert(cuts[0] == (0int, piece_end(0, packet.len() - 40, per)));
    assert forall|k: int| 0 <= k < n implies (#[trigger] fragment_of(fragments[k])) == Ok::<
        Fragment,
        crate::reassembly::Reject,
    >(part(key, header, body, cuts, k)) by {
        assert(fragments[k] == ipv6_fragment(packet, identification, cuts[k]));
        if k > 0 {
            lemma_tiles_order(cuts, body.len() as int, 0, k);
        }
        if k < n - 1 {
            assert(cuts[k].1 < body.len());
        }
        assert(cuts[k].1 - cuts[k].0 <= per && cuts[k].1 - cuts[k].0 <= body.len());
        assert(pieces(0, packet.len() - 40, per)[k].0 % 8 == 0);
        lemma_ipv6_laid_out(packet, identification, cuts[k]);
        lemma_ipv6_part(fragments[k], packet, identification, cuts[k]);
    }
    lemma_ipv6_laid_out(packet, identification, cuts[0]);
    let first = ipv6_fragment(packet, identification, cuts[0]);
    assert forall|i: int| 0 <= i < 40 && i != 4 && i != 5 implies #[trigger] header[i] == packet[i] by {
        if i != 6 {
            assert(first[i] == packet[i]);
        }
    }
}

/// The reassembly key of the IPv4 fragments of a packet.
pub open spec fn ipv4_key(packet: Seq<u8>) -> Key {
    let fields = ipv4_fields(packet);
    Key {
        source: IpAddr::V4(fields.source),
        destination: IpAddr::V4(fields.destination),
        identification: fields.identification as u32,
        protocol: fields.protocol,
    }
}

spec fn ipv4_part(fields: Ipv4Fields, payload: Seq<u8>, piece: (int, int)) -> Seq<u8> {
    ipv4_header_sealed(ipv4_fragment_fields(fields, payload.len() as int, piece)) + payload.subrange(
        piece.0,
        piece.1,
    )
}

proof fn lemma_ipv4_pieces(
    fields: Ipv4Fields,
    payload: Seq<u8>,
    per: int,
    offset: int,
    size: usize,
    mtu: usize,
)
    requires
        0 <= offset,
        per > 0,
        ipv4_fragments(fields, payload, per, offset, size, mtu).1 is None,
    ensures
        ({
            let all = ipv4_fragments(fields, payload, per, offset, size, mtu).0;
            let cuts = pieces(offset, payload.len() as int, per);
            &&& all.len() == cuts.len()
            &&& forall|k: int|
                0 <= k < cuts.len() ==> {
                    &&& #[trigger] all[k] == ipv4_part(fields, payload, cuts[k])
                    &&& (cuts[k].0 / 8) % 65536 <= 8191
                    &&& cuts[k].1 - cuts[k].0 <= 65515
                }
        }),
    decreases payload.len() - offset,
{
    if offset < payload.len() {
        let end = piece_end(offset, payload.len() as int, per);
        lemma_ipv4_pieces(fields, payload, per, end, size, mtu);
        let rest = ipv4_fragments(fields, payload, per, end, size, mtu).0;
        let all = ipv4_fragments(fields, payload, per, offset, size, mtu).0;
        let later = pieces(end, payload.len() as int, per);
        let cuts = pieces(offset, payload.len() as int, per);
        assert(cuts =~= seq![(offset, end)] + later);
        assert forall|k: int| 0 <= k < cuts.len() implies {
            &&& #[trigger] all[k] == ipv4_part(fields, payload, cuts[k])
            &&& (cuts[k].0 / 8) % 65536 <= 8191
            &&& cuts[k].1 - cuts[k].0 <= 65515
        } by {
            if k > 0 {
                assert(all[k] == rest[k - 1]);
                assert(cuts[k] == later[k - 1]);
            }
        }
    }
}

proof fn lemma_ipv4_part(packet: Seq<u8>, piece: (int, int))
    requires
        packet_error(packet) is None,
        packet[0] == 0x45,
        !ipv4_fields(packet).dont_fragment,
        0 <= piece.0 < piece.1 <= packet.len() - 20,
        piece.0 % 8 == 0,
        piece.0 > 0 || piece.1 < packet.len() - 20,
        piece.1 < packet.len() - 20 ==> (piece.1 - piece.0) % 8 == 0,
    ensures
        ({
            let payload = packet.subrange(20, packet.len() as int);
            let f = ipv4_part(ipv4_fields(packet), payload, piece);
            &&& fragment_of(f) == Ok::<Fragment, crate::reassembly::Reject>(
                Fragment {
                    key: ipv4_key(packet),
                    offset: piece.0,
                    more: piece.1 < packet.len() - 20,
                    header: if piece.0 == 0 { Some(f.subrange(0, 20)) } else { None },
                    payload: payload.subrange(piece.0, piece.1),
                },
            )
        }),
{
    let payload = packet.subrange(20, packet.len() as int);
    let fields = ipv4_fields(packet);
    let here = ipv4_fragment_fields(fields, payload.len() as int, piece);
    let rest = payload.subrange(piece.0, piece.1);
    let f = ipv4_part(fields, payload, piece);
    assert(be16(packet, 2) == packet.len());
    lemma_sealed(here, rest);
    assert(f.len() == 20 + rest.len());
    assert(packet_error(f) is None);
    assert(ipv4_fields(f) == here);
    assert(here.fragment_offset * 8 == piece.0);
}

/// The fragments of an IPv4 packet without a stray flag and with a true header checksum, of which there are at least
/// two, taken in any order by a table that holds nothing of them, wait until the last of them arrives and then give
/// the packet back.
pub proof fn law_ipv4_fragments_reassemble(
    packet: Seq<u8>,
    mtu: usize,
    state: TableState,
    order: Seq<int>,
    times: Seq<u64>,
)
    requires
        packet_error(packet) is None,
        packet[0] / 16 == 4,
        packet[6] < 128,
        be16(packet, 10) == ones_complement(ipv4_checksummed(packet)),
        ipv4_refusal(packet, mtu) is None,
        ipv4_split(packet, mtu).1 is None,
        ipv4_split(packet, mtu).0.len() >= 2,
        !state.contexts.contains_key(ipv4_key(packet)),
        is_order(order, ipv4_split(packet, mtu).0.len() as int),
    ensures
        ({
            let fragments = ipv4_split(packet, mtu).0;
            &&& forall|j: int|
                0 <= j < fragments.len() ==> #[trigger] answered(state, fragments, order, times, j) == (if j
                    < fragments.len() - 1 {
                    Step::Pending
                } else {
                    Step::Complete(packet)
                })
            &&& table_after(state, fragments, order, times, fragments.len() as int).contexts == state.contexts
        }),
{
    let per = per_fragment(mtu as int, 20)->0;
    let fields = ipv4_fields(packet);
    let body = packet.subrange(20, packet.len() as int);
    let fragments = ipv4_split(packet, mtu).0;
    let cuts = pieces(0, body.len() as int, per);
    let key = ipv4_key(packet);
    let n = cuts.len() as int;
    let header = fragments[0].subrange(0, 20);
    let parts = Seq::new(cuts.len(), |k: int| part(key, header, body, cuts, k));
    lemma_ipv4_parts(packet, mtu);
    lemma_any_order(state.contexts, key, header, body, cuts, order, times, n);
    lemma_table(state, fragments, parts, order, times, n);
    assert(fragments[0] == ipv4_part(fields, body, cuts[0]));
    let here = ipv4_fragment_fields(fields, body.len() as int, cuts[0]);
    lemma_sealed(here, body.subrange(cuts[0].0, cuts[0].1));
    assert(header =~= ipv4_header_sealed(here));
    lemma_ipv4_header(packet, here);
    lemma_ipv4_whole(packet, header);
}

proof fn lemma_ipv4_parts(packet: Seq<u8>, mtu: usize)
    requires
        packet_error(packet) is None,
        packet[0] / 16 == 4,
        ipv4_refusal(packet, mtu) is None,
        ipv4_split(packet, mtu).1 is None,
        ipv4_split(packet, mtu).0.len() >= 2,
    ensures
        ({
            let fragments = ipv4_split(packet, mtu).0;
            let body = packet.subrange(20, packet.len() as int);
            let cuts = pieces(0, body.len() as int, per_fragment(mtu as int, 20)->0);
            let header = fragments[0].subrange(0, 20);
            &&& fragments.len() == cuts.len()
            &&& packet[0] == 0x45
            &&& tiles(cuts, body.len() as int)
            &&& body.len() + 20 <= 65535
            &&& fragments[0].len() >= 20
            &&& fragments[0] == ipv4_part(ipv4_fields(packet), body, cuts[0])
            &&& forall|k: int|
                0 <= k < cuts.len() ==> (#[trigger] fragment_of(fragments[k])) == Ok::<Fragment, Reject>(
                    part(ipv4_key(packet), header, body, cuts, k),
                )
        }),
{
    let per = per_fragment(mtu as int, 20)->0;
    let fields = ipv4_fields(packet);
    let body = packet.subrange(20, packet.len() as int);
    let fragments = ipv4_split(packet, mtu).0;
    let cuts = pieces(0, body.len() as int, per);
    let n = cuts.len() as int;
    assert(be16(packet, 2) == packet.len());
    lemma_pieces(0, body.len() as int, per);
    lemma_ipv4_pieces(fields, body, per, 0, packet.len() as usize, mtu);
    assert(tiles(cuts, body.len() as int));
    let header = fragments[0].subrange(0, 20);
    assert(cuts[0].1 < body.len());
    lemma_sealed(ipv4_fragment_fields(fields, body.len() as int, cuts[0]), body.subrange(cuts[0].0, cuts[0].1));
    assert forall|k: int| 0 <= k < n implies (#[trigger] fragment_of(fragments[k])) == Ok::<Fragment, Reject>(
        part(ipv4_key(packet), header, body, cuts, k),
    ) by {
        if k > 0 {
            lemma_tiles_order(cuts, body.len() as int, 0, k);
        }
        if k < n - 1 {
            assert(cuts[k].1 < body.len());
        }
        assert(pieces(0, body.len() as int, per)[k].0 % 8 == 0);
        assert(fragments[k] == ipv4_part(fields, body, cuts[k]));
        lemma_ipv4_part(packet, cuts[k]);
    }
}

/// Every fragment of an IPv4 packet has the packet's key.
pub proof fn lemma_ipv4_keys(packet: Seq<u8>, mtu: usize, k: int)
    requires
        packet_error(packet) is None,
        packet[0] / 16 == 4,
        ipv4_refusal(packet, mtu) is None,
        ipv4_split(packet, mtu).1 is None,
        ipv4_split(packet, mtu).0.len() >= 2,
        0 <= k < ipv4_split(packet, mtu).0.len(),
    ensures
        fragment_of(ipv4_split(packet, mtu).0[k]) matches Ok(f) && f.key == ipv4_key(packet),
{
    lemma_ipv4_parts(packet, mtu);
}

/// Every fragment of an IPv6 packet has the packet's key.
pub proof fn lemma_ipv6_keys(packet: Seq<u8>, mtu: usize, identification: u32, k: int)
    requires
        packet_error(packet) is None,
        packet[0] / 16 == 6,
        ipv6_refusal(packet, mtu) is None,
        8 + piece_end(0, packet.len() - 40, per_fragment(mtu as int, 48)->0) <= 65535,
        0 <= k < ipv6_fragments(packet, identification, per_fragment(mtu as int, 48)->0, 0).len(),
    ensures
        fragment_of(ipv6_fragments(packet, identification, per_fragment(mtu as int, 48)->0, 0)[k]) matches Ok(f)
            && f.key == ipv6_key(packet, identification),
{
    lemma_ipv6_parts(packet, identification, per_fragment(mtu as int, 48)->0);
}

/// The places of an IPv4 header that fragmenting and reassembling leave alone.
spec fn steady(i: int) -> bool {
    i == 0 || i == 1 || i == 4 || i == 5 || i == 8 || i == 9 || 12 <= i < 20
}

proof fn lemma_ipv4_header(packet: Seq<u8>, here: Ipv4Fields)
    requires
        packet_error(packet) is None,
        packet[0] == 0x45,
        here == (Ipv4Fields {
            more_fragments: here.more_fragments,
            fragment_offset: here.fragment_offset,
            total_len: here.total_len,
            ..ipv4_fields(packet)
        }),
    ensures
        ipv4_header_sealed(here).len() == 20,
        forall|i: int| #[trigger] steady(i) ==> ipv4_header_sealed(here)[i] == packet[i],
{
    reveal(ipv4_header_sealed);
    let header = ipv4_header_sealed(here);
    lemma_be_bounds(packet, 4);
    lemma_be_bounds(packet, 12);
    lemma_be_bounds(packet, 16);
    lemma_same_u16(packet, 4);
    lemma_same_u32(packet, 12);
    lemma_same_u32(packet, 16);
    assert(header.len() == 20);
    assert(header[0] == 0x45);
    assert(header[1] == packet[1]);
    assert(header.subrange(4, 6) =~= oct2(here.identification as int));
    assert(header.subrange(12, 16) =~= oct4(here.source as int));
    assert(header.subrange(16, 20) =~= oct4(here.destination as int));
    assert forall|i: int| #[trigger] steady(i) implies header[i] == packet[i] by {
        if 4 <= i < 6 {
            assert(header[i] == header.subrange(4, 6)[i - 4]);
            assert(packet[i] == packet.subrange(4, 6)[i - 4]);
        } else if 12 <= i < 16 {
            assert(header[i] == header.subrange(12, 16)[i - 12]);
            assert(packet[i] == packet.subrange(12, 16)[i - 12]);
        } else if 16 <= i < 20 {
            assert(header[i] == header.subrange(16, 20)[i - 16]);
            assert(packet[i] == packet.subrange(16, 20)[i - 16]);
        }
    }
}

proof fn lemma_no_flags(packet: Seq<u8>)
    requires
        packet.len() >= 20,
        packet[6] < 128,
        !ipv4_fields(packet).dont_fragment,
        !ipv4_fields(packet).more_fragments,
        ipv4_fields(packet).fragment_offset == 0,
    ensures
        packet[6] == 0,
        packet[7] == 0,
{
    assert(be16(packet, 6) % 8192 == 0);
}

proof fn lemma_ipv4_whole(packet: Seq<u8>, header: Seq<u8>)
    requires
        packet_error(packet) is None,
        packet[0] == 0x45,
        packet[6] < 128,
        !ipv4_fields(packet).dont_fragment,
        !ipv4_fields(packet).more_fragments,
        ipv4_fields(packet).fragment_offset == 0,
        be16(packet, 10) == ones_complement(ipv4_checksummed(packet)),
        header.len() == 20,
        forall|i: int| #[trigger] steady(i) ==> header[i] == packet[i],
    ensures
        assembled(header, packet.subrange(20, packet.len() as int)) == packet,
{
    let body = packet.subrange(20, packet.len() as int);
    let joined = header + body;
    let length = oct2(joined.len() as int);
    let whole = joined.update(2, length[0]).update(3, length[1]).update(6, 0).update(7, 0).update(10, 0).update(
        11,
        0,
    );
    assert(be16(packet, 2) == packet.len());
    lemma_same_u16(packet, 2);
    lemma_same_u16(packet, 10);
    lemma_no_flags(packet);
    assert(packet[2] == packet.subrange(2, 4)[0] && packet[3] == packet.subrange(2, 4)[1]);
    assert(packet[10] == packet.subrange(10, 12)[0] && packet[11] == packet.subrange(10, 12)[1]);
    assert(steady(0));
    assert(whole.len() == packet.len());
    assert forall|i: int| 0 <= i < packet.len() && i != 10 && i != 11 implies whole[i] == packet[i] by {
        if i >= 20 {
            assert(joined[i] == body[i - 20]);
        } else {
            assert(joined[i] == header[i]);
            assert(steady(i) || i == 2 || i == 3 || i == 6 || i == 7);
        }
    }
    assert(ipv4_header_fits(whole));
    assert(ipv4_checksummed(whole) =~= ipv4_checksummed(packet));
    assert(assembled(header, body) =~= packet);
}

} // verus!
