//! Holds IP fragments until the datagram they belong to is whole.
use vstd::prelude::*;

use crate::addr::IpAddr;
use crate::checksum::{ipv4_checksummed, ipv4_header_checksum, ones_complement};
use crate::ip_wire::{
    ipv4_fields, ipv4_header, ipv4_header_fits, ipv6_fields, law_a_packet_is_as_long_as_it_says,
    law_where_the_ipv4_fields_stand, packet_error, Packet,
};
use crate::octets::{be128, be16, be32, law_read_back_u16, lemma_be_bounds, oct2, push_all};
use crate::rows::{Dated, RowKey, Rows};
use crate::text::{decimal, listed, push_decimal, push_field};
use crate::tun_handoff::packet_views;

verus! {

/// How long an IPv4 datagram waits for its fragments, in nanoseconds.
pub const IPV4_REASSEMBLY_TIMEOUT: u64 = 30_000_000_000;

/// How long an IPv6 datagram waits for its fragments, in nanoseconds.
pub const IPV6_REASSEMBLY_TIMEOUT: u64 = 60_000_000_000;

/// The largest length that a header can encode.
pub const MAX_ENCODED_LENGTH: usize = 65_535;

/// The longest IP header kept.
pub const MAX_HEADER: usize = 60;

/// What became of an accepted fragment.
#[derive(Debug, PartialEq, Eq)]
pub enum Accepted {
    Pending,
    Complete(Vec<u8>),
}

/// Why a fragment was refused.
#[derive(Clone, Copy, Debug, PartialEq, Eq)]
pub enum Reject {
    Malformed(&'static str),
    Overlap,
}

/// What the fragments of one datagram share.
#[derive(Clone, Copy, Debug, PartialEq, Eq, Structural)]
pub struct Key {
    pub source: IpAddr,
    pub destination: IpAddr,
    pub identification: u32,
    pub protocol: u8,
}

impl RowKey for Key {
    type Model = Key;

    open spec fn model(&self) -> Key {
        *self
    }

    fn same(&self, other: &Self) -> bool {
        *self == *other
    }
}

/// A range of body offsets.
#[derive(Clone, Copy, Debug, PartialEq, Eq, Structural)]
pub struct Span {
    pub start: usize,
    pub end: usize,
}

/// Whether some range holds `i`.
pub open spec fn covers(spans: Seq<Span>, i: int) -> bool {
    exists|k: int| 0 <= k < spans.len() && (#[trigger] spans[k]).start <= i < spans[k].end
}

/// Ranges in order, with a gap between any two.
pub open spec fn apart(spans: Seq<Span>) -> bool {
    &&& forall|k: int| #![trigger spans[k]] 0 <= k < spans.len() ==> spans[k].start <= spans[k].end
    &&& forall|j: int, k: int|
        0 <= j < k < spans.len() ==> (#[trigger] spans[j]).end < (#[trigger] spans[k]).start
}

/// Ranges none of which is empty.
pub open spec fn full(spans: Seq<Span>) -> bool {
    forall|k: int| #![trigger spans[k]] 0 <= k < spans.len() ==> spans[k].start < spans[k].end
}

/// Whether two ranges share an offset, an empty one counting where it lies inside the other.
pub open spec fn crosses(span: Span, start: int, end: int) -> bool {
    start < span.end && span.start < end
}

/// Appends a range, or extends the last one where they meet.
pub fn push_merged(merged: &mut Vec<Span>, range: Span)
    requires
        apart(old(merged)@),
        range.start <= range.end,
        old(merged)@.len() > 0 ==> old(merged)@.last().end <= range.start,
    ensures
        apart(final(merged)@),
        final(merged)@.len() > 0,
        final(merged)@.last().end == range.end,
        final(merged)@.len() <= old(merged)@.len() + 1,
        full(old(merged)@) && range.start < range.end ==> full(final(merged)@),
        forall|i: int|
            #[trigger] covers(final(merged)@, i) == (covers(old(merged)@, i) || range.start <= i
                < range.end),
        old(merged)@.len() == 0 ==> final(merged)@ == seq![range],
{
    let ghost before = merged@;
    let n: usize = merged.len();
    if n > 0 && merged[n - 1].end == range.start {
        let last = merged[n - 1];
        merged.set(n - 1, Span { start: last.start, end: range.end });
        proof {
            let after = merged@;
            assert forall|i: int| #[trigger] covers(after, i) == (covers(before, i) || range.start <= i
                < range.end) by {
                if covers(after, i) {
                    let k = choose|k: int| 0 <= k < after.len() && (#[trigger] after[k]).start <= i < after[k].end;
                    assert(before[k].start <= i);
                }
                if covers(before, i) {
                    let k = choose|k: int|
                        0 <= k < before.len() && (#[trigger] before[k]).start <= i < before[k].end;
                    assert(after[k].start <= i < after[k].end);
                }
                if range.start <= i < range.end {
                    assert(after[n - 1].start <= i < after[n - 1].end);
                }
            }
        }
    } else {
        merged.push(range);
        proof {
            let after = merged@;
            assert forall|i: int| #[trigger] covers(after, i) == (covers(before, i) || range.start <= i
                < range.end) by {
                if covers(after, i) {
                    let k = choose|k: int| 0 <= k < after.len() && (#[trigger] after[k]).start <= i < after[k].end;
                    if k < before.len() {
                        assert(before[k] == after[k]);
                    }
                }
                if covers(before, i) {
                    let k = choose|k: int|
                        0 <= k < before.len() && (#[trigger] before[k]).start <= i < before[k].end;
                    assert(after[k] == before[k]);
                }
                if range.start <= i < range.end {
                    assert(after[n as int] == range);
                }
            }
            assert forall|j: int, k: int| 0 <= j < k < after.len() implies (#[trigger] after[j]).end < (
            #[trigger] after[k]).start by {
                assert(after[j] == before[j]);
                if k == n {
                    assert(before[j].end <= before[n - 1].end);
                }
            }
        }
    }
}

/// Adds one range to ranges that it does not cross, joining those that meet.
pub fn merge_ranges(old: &[Span], new: Span) -> (r: Vec<Span>)
    requires
        apart(old@),
        full(old@),
        new.start <= new.end,
        forall|k: int| 0 <= k < old@.len() ==> !crosses(#[trigger] old@[k], new.start as int, new.end as int),
    ensures
        apart(r@),
        new.start < new.end ==> full(r@),
        r@.len() <= old@.len() + 1,
        r@.len() > 0,
        forall|i: int| #[trigger] covers(r@, i) == (covers(old@, i) || new.start <= i < new.end),
        old@.len() == 0 ==> r@ == seq![new],
{
    let mut merged: Vec<Span> = Vec::with_capacity(old.len().saturating_add(1));
    let mut placed = false;
    let mut k: usize = 0;
    while k < old.len()
        invariant
            k <= old@.len(),
            apart(old@),
            full(old@),
            new.start <= new.end,
            forall|j: int|
                0 <= j < old@.len() ==> !crosses(#[trigger] old@[j], new.start as int, new.end as int),
            apart(merged@),
            new.start < new.end || !placed ==> full(merged@),
            merged@.len() <= k + if placed { 1int } else { 0 },
            k == 0 ==> !placed && merged@.len() == 0,
            placed ==> merged@.len() > 0,
            !placed ==> forall|j: int| 0 <= j < k ==> (#[trigger] old@[j]).end <= new.start,
            k > 0 ==> merged@.len() > 0 && merged@.last().end == old@[k - 1].end,
            placed ==> forall|j: int| k <= j < old@.len() ==> new.end <= (#[trigger] old@[j]).start,
            forall|i: int|
                #[trigger] covers(merged@, i) == (covers(old@.subrange(0, k as int), i) || placed
                    && new.start <= i < new.end),
        decreases old@.len() - k,
    {
        let range = old[k];
        let ghost first = old@.subrange(0, k as int);
        let ghost more = old@.subrange(0, k + 1);
        assert forall|i: int| #[trigger] covers(more, i) == (covers(first, i) || range.start <= i < range.end) by {
            if covers(more, i) {
                let j = choose|j: int| 0 <= j < more.len() && (#[trigger] more[j]).start <= i < more[j].end;
                if j < k {
                    assert(first[j] == more[j]);
                }
            }
            if covers(first, i) {
                let j = choose|j: int| 0 <= j < first.len() && (#[trigger] first[j]).start <= i < first[j].end;
                assert(more[j] == first[j]);
            }
            if range.start <= i < range.end {
                assert(more[k as int] == range);
            }
        }
        if !placed && new.start <= range.start {
            assert(!crosses(old@[k as int], new.start as int, new.end as int));
            assert(new.end <= range.start);
            assert forall|j: int| k <= j < old@.len() implies new.end <= (#[trigger] old@[j]).start by {
                if j > k {
                    assert(old@[k as int].end < old@[j].start);
                }
            }
            push_merged(&mut merged, new);
            placed = true;
        }
        if !placed {
            assert(!crosses(old@[k as int], new.start as int, new.end as int));
        }
        push_merged(&mut merged, range);
        k += 1;
    }
    proof {
        assert(old@.subrange(0, old@.len() as int) =~= old@);
    }
    if !placed {
        push_merged(&mut merged, new);
    }
    merged
}

/// One header, kept for the datagram it opens.
#[derive(Debug)]
pub struct Header {
    bytes: Vec<u8>,
}

impl View for Header {
    type V = Seq<u8>;

    closed spec fn view(&self) -> Seq<u8> {
        self.bytes@
    }
}

impl Header {
    /// Keeps a header no longer than an IP header can be.
    pub fn new(bytes: &[u8]) -> (r: Option<Self>)
        ensures
            r is Some == (bytes@.len() <= 60),
            r matches Some(header) ==> header@ == bytes@,
    {
        if bytes.len() > MAX_HEADER {
            return None;
        }
        let mut kept: Vec<u8> = Vec::with_capacity(bytes.len());
        push_all(&mut kept, bytes);
        assert(kept@ =~= bytes@);
        Some(Header { bytes: kept })
    }

    /// The octets of the header.
    pub fn as_slice(&self) -> (r: &[u8])
        ensures
            r@ == self@,
    {
        self.bytes.as_slice()
    }

    /// The size of the header.
    pub fn len(&self) -> (r: usize)
        ensures
            r == self@.len(),
    {
        self.bytes.len()
    }

    fn set(&mut self, i: usize, value: u8)
        requires
            i < old(self)@.len(),
        ensures
            final(self)@ == old(self)@.update(i as int, value),
    {
        self.bytes.set(i, value);
    }
}

/// What is held of one datagram.
pub struct Context {
    payload: Vec<u8>,
    received: Vec<Span>,
    header: Option<Header>,
    total: Option<usize>,
    deadline: u64,
}

/// What is held of one datagram: its body as far as it reaches, which offsets of it arrived, the header of
/// fragment zero, the body's size once known, and when the wait for it ends.
#[verifier::ext_equal]
pub struct Held {
    pub payload: Seq<u8>,
    pub covered: Set<int>,
    pub header: Option<Seq<u8>>,
    pub total: Option<int>,
    pub deadline: u64,
}

/// Every offset from `start` to `end`.
pub open spec fn offsets(start: int, end: int) -> Set<int> {
    Set::new(|i: int| start <= i < end)
}

impl Held {
    /// Whether the body is known to be whole.
    pub open spec fn complete(self) -> bool {
        self.total matches Some(total) && self.covered == offsets(0, total)
    }

    /// What the owner of `key` may hold: a body that a header can encode and whose end has arrived, no longer
    /// than its known size, and with the header of fragment zero once that has come.
    pub open spec fn sound(self, key: Key) -> bool {
        &&& 0 < self.payload.len() <= max_body(key)
        &&& self.covered.contains(self.payload.len() - 1)
        &&& forall|i: int| #[trigger] self.covered.contains(i) ==> 0 <= i < self.payload.len()
        &&& self.total matches Some(total) ==> self.payload.len() <= total <= max_body(key)
        &&& self.covered.contains(0) ==> self.header is Some
        &&& self.header matches Some(header) ==> header_fits(key, header, self.payload.len() as int)
        &&& !self.complete()
    }
}

/// Whether a header opens a datagram of `key` with a body of `len` octets.
pub open spec fn header_fits(key: Key, header: Seq<u8>, len: int) -> bool {
    match key.source {
        IpAddr::V4(_) => ipv4_header_fits(header) && header.len() == (header[0] % 16) * 4
            && header.len() + len <= 65535,
        IpAddr::V6(_) => header.len() == 40 && header[0] / 16 == 6,
    }
}

/// The largest body that a datagram of `key` can have.
pub open spec fn max_body(key: Key) -> int {
    match key.source {
        IpAddr::V4(_) => 65515,
        IpAddr::V6(_) => 65535,
    }
}

/// How long a datagram of `key` waits.
pub open spec fn timeout(key: Key) -> u64 {
    match key.source {
        IpAddr::V4(_) => IPV4_REASSEMBLY_TIMEOUT,
        IpAddr::V6(_) => IPV6_REASSEMBLY_TIMEOUT,
    }
}

impl Context {
    pub closed spec fn held(self) -> Held {
        Held {
            payload: self.payload@,
            covered: Set::new(|i: int| covers(self.received@, i)),
            header: match self.header {
                Some(header) => Some(header@),
                None => None,
            },
            total: match self.total {
                Some(total) => Some(total as int),
                None => None,
            },
            deadline: self.deadline,
        }
    }

    pub closed spec fn wf(self) -> bool {
        &&& apart(self.received@)
        &&& full(self.received@)
        &&& forall|k: int|
            #![trigger self.received@[k]]
            0 <= k < self.received@.len() ==> self.received@[k].end <= self.payload@.len()
    }

    /// Whether an empty body is all that was received.
    pub closed spec fn only_empty(self) -> bool {
        self.received@ == seq![Span { start: 0, end: 0 }]
    }

    /// Whether the one range received is the whole known body.
    pub closed spec fn single(self) -> bool {
        self.total matches Some(total) && self.received@ == seq![Span { start: 0, end: total }]
    }

    /// Whether the body is whole.
    pub fn complete(&self) -> (r: bool)
        ensures
            r == self.single(),
    {
        match self.total {
            Some(total) => {
                if self.received.len() == 1 {
                    let only = self.received[0];
                    let r = only.start == 0 && only.end == total;
                    proof {
                        if r {
                            assert(self.received@ =~= seq![Span { start: 0, end: total }]);
                        } else {
                            assert(seq![Span { start: 0, end: total }][0] != only);
                        }
                    }
                    r
                } else {
                    false
                }
            },
            None => false,
        }
    }
}

impl Dated for Context {
    closed spec fn due(&self) -> u64 {
        self.deadline
    }

    fn deadline(&self) -> u64 {
        self.deadline
    }
}

/// Ranges that cover exactly a nonempty body are that one range.
proof fn lemma_whole(spans: Seq<Span>, total: usize)
    requires
        apart(spans),
        full(spans),
        total > 0,
    ensures
        (Set::new(|i: int| covers(spans, i)) == offsets(0, total as int)) == (spans == seq![
            Span { start: 0, end: total },
        ]),
{
    let covered = Set::new(|i: int| covers(spans, i));
    let all = offsets(0, total as int);
    let one = seq![Span { start: 0, end: total }];
    if spans == one {
        assert forall|i: int| covered.contains(i) == all.contains(i) by {
            if all.contains(i) {
                assert(spans[0].start <= i < spans[0].end);
            }
        }
        assert(covered =~= all);
    }
    if covered == all {
        assert(all.contains(0));
        assert(covers(spans, 0));
        let k = choose|k: int| 0 <= k < spans.len() && (#[trigger] spans[k]).start <= 0 < spans[k].end;
        if k > 0 {
            assert(spans[0].end < spans[k].start);
        }
        let first = spans[0];
        assert(first.start == 0);
        // the end of the first range is not covered
        assert(!covers(spans, first.end as int)) by {
            if covers(spans, first.end as int) {
                let j = choose|j: int|
                    0 <= j < spans.len() && (#[trigger] spans[j]).start <= first.end < spans[j].end;
                if j > 0 {
                    assert(spans[0].end < spans[j].start);
                }
            }
        }
        assert(!all.contains(first.end as int));
        assert(spans[0].start <= first.end - 1 < spans[0].end);
        assert(covered.contains(first.end - 1));
        assert(all.contains(first.end - 1));
        if spans.len() > 1 {
            assert(spans[0].end < spans[1].start);
            assert(spans[1].start <= spans[1].start < spans[1].end);
            assert(covered.contains(spans[1].start as int));
            assert(all.contains(spans[1].start as int));
        }
        assert(spans =~= one);
    }
}

/// A body with one more piece: as long as it has to be, zero where nothing has arrived.
pub open spec fn placed(payload: Seq<u8>, offset: int, piece: Seq<u8>) -> Seq<u8> {
    let end = offset + piece.len();
    let len = if payload.len() < end { end } else { payload.len() as int };
    Seq::new(
        len as nat,
        |i: int|
            if offset <= i < end {
                piece[i - offset]
            } else if i < payload.len() {
                payload[i]
            } else {
                0u8
            },
    )
}

/// Whether a piece shares an offset with what has arrived.
pub open spec fn overlaps(covered: Set<int>, start: int, end: int) -> bool {
    exists|i: int| start <= i < end && #[trigger] covered.contains(i)
}

proof fn lemma_crossing(spans: Seq<Span>, start: int, end: int)
    requires
        full(spans),
        apart(spans),
        0 <= start <= end,
        start == end ==> start == 0,
    ensures
        overlaps(Set::new(|i: int| covers(spans, i)), start, end) == (exists|k: int|
            0 <= k < spans.len() && crosses(#[trigger] spans[k], start, end)),
{
    let covered = Set::new(|i: int| covers(spans, i));
    if exists|k: int| 0 <= k < spans.len() && crosses(#[trigger] spans[k], start, end) {
        let k = choose|k: int| 0 <= k < spans.len() && crosses(#[trigger] spans[k], start, end);
        let i = if spans[k].start as int >= start { spans[k].start as int } else { start };
        assert(spans[k].start <= i < spans[k].end);
        assert(covered.contains(i));
    }
    if overlaps(covered, start, end) {
        let i = choose|i: int| start <= i < end && #[trigger] covered.contains(i);
        let k = choose|k: int| 0 <= k < spans.len() && (#[trigger] spans[k]).start <= i < spans[k].end;
        assert(crosses(spans[k], start, end));
    }
}

/// Places one piece into a body, unless it crosses what has arrived.
pub fn insert(context: &mut Context, offset: usize, payload: &[u8]) -> (r: bool)
    requires
        old(context).wf(),
        offset + payload@.len() <= usize::MAX,
        payload@.len() == 0 ==> offset == 0,
    ensures
        r == !overlaps(old(context).held().covered, offset as int, offset + payload@.len()),
        !r ==> *final(context) == *old(context),
        r ==> {
            &&& payload@.len() > 0 ==> final(context).wf()
            &&& final(context).held() == (Held {
                payload: placed(old(context).held().payload, offset as int, payload@),
                covered: old(context).held().covered.union(
                    offsets(offset as int, offset + payload@.len()),
                ),
                ..old(context).held()
            })
            &&& payload@.len() == 0 && old(context).held().payload.len() == 0 ==> final(context).only_empty()
        },
{
    let end: usize = offset + payload.len();
    let ghost spans = context.received@;
    let mut k: usize = 0;
    while k < context.received.len()
        invariant
            context == old(context),
            context.wf(),
            payload@.len() == 0 ==> offset == 0,
            spans == context.received@,
            k <= spans.len(),
            end == offset + payload@.len(),
            forall|j: int| 0 <= j < k ==> !crosses(#[trigger] spans[j], offset as int, end as int),
        decreases spans.len() - k,
    {
        let range = context.received[k];
        if offset < range.end && range.start < end {
            proof {
                assert(crosses(spans[k as int], offset as int, end as int));
                lemma_crossing(spans, offset as int, end as int);
            }
            return false;
        }
        k += 1;
    }
    proof {
        lemma_crossing(spans, offset as int, end as int);
    }
    let ghost before = context.payload@;
    let ghost was = *context;
    if context.payload.len() < end {
        context.payload.resize(end, 0);
    }
    let ghost grown = context.payload@;
    let mut i: usize = 0;
    let length: usize = payload.len();
    while i < length
        invariant
            i <= length,
            length == payload@.len(),
            end == offset + length,
            end <= context.payload@.len(),
            context.payload@.len() == grown.len(),
            context.received@ == spans,
            context.header == was.header,
            context.total == was.total,
            context.deadline == was.deadline,
            forall|j: int|
                #![trigger context.payload@[j]]
                0 <= j < grown.len() ==> context.payload@[j] == if offset <= j < offset + i {
                    payload@[j - offset]
                } else {
                    grown[j]
                },
        decreases length - i,
    {
        context.payload.set(offset + i, payload[i]);
        i += 1;
    }
    context.received = merge_ranges(context.received.as_slice(), Span { start: offset, end });
    proof {
        let after = *context;
        assert(grown.len() >= before.len());
        assert forall|j: int| 0 <= j < before.len() implies grown[j] == before[j] by {
            if before.len() < end {
                assert(grown.subrange(0, before.len() as int)[j] == before[j]);
            }
        }
        assert(after.payload@ =~= placed(before, offset as int, payload@));
        assert(after.held().covered =~= was.held().covered.union(offsets(offset as int, end as int)));
        assert(after.held() =~= (Held {
            payload: placed(before, offset as int, payload@),
            covered: was.held().covered.union(offsets(offset as int, end as int)),
            ..was.held()
        }));
        if payload@.len() > 0 {
            assert forall|k: int|
                #![trigger after.received@[k]]
                0 <= k < after.received@.len() implies after.received@[k].end
                <= after.payload@.len() by {
                let last = after.received@[k].end - 1;
                assert(after.received@[k].start <= last < after.received@[k].end);
                assert(covers(after.received@, last));
                if covers(spans, last) {
                    let j = choose|j: int|
                        0 <= j < spans.len() && (#[trigger] spans[j]).start <= last < spans[j].end;
                    assert(spans[j].end <= before.len());
                }
            }
        } else if before.len() == 0 {
            if spans.len() > 0 {
                assert(spans[0].end <= before.len());
            }
            assert(after.received@ == seq![Span { start: 0usize, end: 0usize }]);
        }
    }
    true
}

/// A whole datagram: fragment zero's header in front of the body, with the length, the fragment fields and the
/// checksum that a whole one has.
pub open spec fn assembled(header: Seq<u8>, payload: Seq<u8>) -> Seq<u8> {
    let packet = header + payload;
    if packet[0] / 16 == 4 {
        let length = oct2(packet.len() as int);
        let whole = packet.update(2, length[0]).update(3, length[1]).update(6, 0).update(7, 0).update(
            10,
            0,
        ).update(11, 0);
        if ipv4_header_fits(whole) {
            let sum = oct2(ones_complement(ipv4_checksummed(whole)) as int);
            whole.update(10, sum[0]).update(11, sum[1])
        } else {
            whole
        }
    } else {
        let length = oct2(payload.len() as int);
        packet.update(4, length[0]).update(5, length[1])
    }
}

fn set_u16(packet: &mut Vec<u8>, i: usize, value: u16)
    requires
        i + 1 < old(packet)@.len(),
    ensures
        final(packet)@ == old(packet)@.update(i as int, oct2(value as int)[0]).update(
            i + 1,
            oct2(value as int)[1],
        ),
{
    let _size: usize = packet.len();
    packet.set(i, (value / 256) as u8);
    packet.set(i + 1, (value % 256) as u8);
}

/// Puts fragment zero's header in front of the body.
pub fn assemble(header: &[u8], payload: &[u8]) -> (r: Vec<u8>)
    requires
        header@.len() >= 12,
        header@[0] / 16 == 4 ==> header@.len() + payload@.len() <= 65535,
        payload@.len() <= 65535,
        header@.len() <= 60,
    ensures
        r@ == assembled(header@, payload@),
{
    let mut packet: Vec<u8> = Vec::with_capacity(header.len() + payload.len());
    push_all(&mut packet, header);
    push_all(&mut packet, payload);
    assert(packet@ =~= header@ + payload@);
    assert(packet@[0] == header@[0]);
    if packet[0] / 16 == 4 {
        let length: u16 = packet.len() as u16;
        set_u16(&mut packet, 2, length);
        packet.set(6, 0);
        packet.set(7, 0);
        packet.set(10, 0);
        packet.set(11, 0);
        if let Some(_) = ipv4_header(packet.as_slice()) {
            let checksum: u16 = ipv4_header_checksum(packet.as_slice());
            set_u16(&mut packet, 10, checksum);
        }
    } else {
        let length: u16 = payload.len() as u16;
        set_u16(&mut packet, 4, length);
    }
    packet
}

/// What one fragment says.
pub struct Fragment {
    pub key: Key,
    pub offset: int,
    pub more: bool,
    pub header: Option<Seq<u8>>,
    pub payload: Seq<u8>,
}

/// What is wrong with the shape of a fragment, if anything is.
pub open spec fn shape_error(offset: int, more: bool, len: int) -> Option<Reject> {
    if more {
        if len == 0 {
            Some(Reject::Malformed("a non-final fragment carries no payload"))
        } else if len % 8 != 0 {
            Some(Reject::Malformed("a non-final fragment is not a multiple of eight octets"))
        } else {
            None
        }
    } else if offset != 0 && len == 0 {
        Some(Reject::Malformed("a final fragment carries no payload"))
    } else {
        None
    }
}

/// Checks the shape of a fragment.
pub fn shape(offset: usize, more: bool, payload: usize) -> (r: Result<(), Reject>)
    ensures
        r == (match shape_error(offset as int, more, payload as int) {
            Some(reject) => Err::<(), Reject>(reject),
            None => Ok(()),
        }),
{
    if more {
        if payload == 0 {
            return Err(Reject::Malformed("a non-final fragment carries no payload"));
        }
        if payload % 8 != 0 {
            return Err(
                Reject::Malformed("a non-final fragment is not a multiple of eight octets"),
            );
        }
    } else if offset != 0 && payload == 0 {
        return Err(Reject::Malformed("a final fragment carries no payload"));
    }
    Ok(())
}

/// What an IPv6 Fragment header says.
pub struct FragmentFields {
    pub next_header: u8,
    /// In units of eight octets.
    pub fragment_offset: u16,
    pub more_fragments: bool,
    pub identification: u32,
}

/// The Fragment header at the start of `t`.
pub open spec fn fragment_fields(t: Seq<u8>) -> FragmentFields {
    FragmentFields {
        next_header: t[0],
        fragment_offset: (be16(t, 2) / 8) as u16,
        more_fragments: t[3] % 2 == 1,
        identification: be32(t, 4) as u32,
    }
}

/// The Fragment header at the start of an IPv6 payload.
///
/// Calls `etherparse::Ipv6FragmentHeaderSlice::from_slice`, which takes exactly the slices of at least eight
/// octets, and reads the fields off it.
#[verifier::external_body]
fn fragment_header(slice: &[u8]) -> (r: Option<FragmentFields>)
    ensures
        r == (if slice@.len() >= 8 { Some(fragment_fields(slice@)) } else { None }),
{
    let header = etherparse::Ipv6FragmentHeaderSlice::from_slice(slice).ok()?;
    Some(FragmentFields {
        next_header: header.next_header().0,
        fragment_offset: header.fragment_offset().value(),
        more_fragments: header.more_fragments(),
        identification: header.identification(),
    })
}

/// What an IPv4 packet says, read as a fragment.
pub open spec fn ipv4_fragment_of(s: Seq<u8>) -> Result<Fragment, Reject> {
    let header = ipv4_fields(s);
    let offset = header.fragment_offset * 8;
    let payload = s.subrange(header.header_len as int, s.len() as int);
    if !header.more_fragments && offset == 0 {
        Err(Reject::Malformed("IPv4 packet is not a fragment"))
    } else {
        match shape_error(offset, header.more_fragments, payload.len() as int) {
            Some(reject) => Err(reject),
            None => Ok(
                Fragment {
                    key: Key {
                        source: IpAddr::V4(header.source),
                        destination: IpAddr::V4(header.destination),
                        identification: header.identification as u32,
                        protocol: header.protocol,
                    },
                    offset,
                    more: header.more_fragments,
                    header: if offset == 0 {
                        Some(s.subrange(0, header.header_len as int))
                    } else {
                        None
                    },
                    payload,
                },
            ),
        }
    }
}

/// What an IPv6 packet says, read as a fragment.
pub open spec fn ipv6_fragment_of(s: Seq<u8>) -> Result<Fragment, Reject> {
    let header = ipv6_fields(s);
    let t = s.subrange(40, s.len() as int);
    if header.next_header != 44 {
        Err(Reject::Malformed("IPv6 packet is not a fragment"))
    } else if t.len() < 8 {
        Err(Reject::Malformed("IPv6 fragment header does not fit"))
    } else {
        let fragment = fragment_fields(t);
        let offset = fragment.fragment_offset * 8;
        let payload = t.subrange(8, t.len() as int);
        match shape_error(offset, fragment.more_fragments, payload.len() as int) {
            Some(reject) => Err(reject),
            None => Ok(
                Fragment {
                    key: Key {
                        source: IpAddr::V6(header.source),
                        destination: IpAddr::V6(header.destination),
                        identification: fragment.identification,
                        protocol: 0,
                    },
                    offset,
                    more: fragment.more_fragments,
                    header: if offset == 0 {
                        Some(s.subrange(0, 40).update(6, fragment.next_header))
                    } else {
                        None
                    },
                    payload,
                },
            ),
        }
    }
}

/// What a packet says, read as a fragment.
pub open spec fn fragment_of(s: Seq<u8>) -> Result<Fragment, Reject> {
    match packet_error(s) {
        Some(error) => Err(Reject::Malformed(error.text())),
        None => if s[0] / 16 == 4 {
            ipv4_fragment_of(s)
        } else {
            ipv6_fragment_of(s)
        },
    }
}

struct Piece<'a> {
    key: Key,
    offset: usize,
    more: bool,
    header: Option<Header>,
    payload: &'a [u8],
}

impl<'a> Piece<'a> {
    spec fn fragment(self) -> Fragment {
        Fragment {
            key: self.key,
            offset: self.offset as int,
            more: self.more,
            header: match self.header {
                Some(header) => Some(header@),
                None => None,
            },
            payload: self.payload@,
        }
    }
}

/// What holds of every fragment.
pub open spec fn fragment_sound(f: Fragment) -> bool {
    &&& 0 <= f.offset <= 65528
    &&& f.payload.len() <= 65535
    &&& f.payload.len() == 0 ==> f.offset == 0 && !f.more
    &&& f.payload.len() == 0 ==> f.key.source is V6
    &&& (f.offset == 0) == (f.header is Some)
    &&& f.header matches Some(header) ==> match f.key.source {
        IpAddr::V4(_) => ipv4_header_fits(header) && header.len() == (header[0] % 16) * 4,
        IpAddr::V6(_) => header.len() == 40 && header[0] / 16 == 6,
    }
}

/// Whatever is read as a fragment is sound.
pub proof fn lemma_fragment_sound(packet: Seq<u8>)
    ensures
        fragment_of(packet) matches Ok(f) ==> fragment_sound(f),
{
    lemma_be_bounds(packet, 2);
    lemma_be_bounds(packet, 4);
    lemma_be_bounds(packet, 6);
    if packet.len() >= 40 {
        lemma_be_bounds(packet.subrange(40, packet.len() as int), 2);
    }
}

fn parse<'a>(packet: &'a [u8]) -> (r: Result<Piece<'a>, Reject>)
    ensures
        match r {
            Ok(piece) => fragment_of(packet@) == Ok::<Fragment, Reject>(piece.fragment())
                && fragment_sound(piece.fragment()),
            Err(reject) => fragment_of(packet@) == Err::<Fragment, Reject>(reject),
        },
{
    match Packet::parse(packet) {
        Err(error) => Err(Reject::Malformed(error.message())),
        Ok(Packet::Ipv4 { header, payload }) => {
            let offset: usize = header.fragment_offset as usize * 8;
            let more = header.more_fragments;
            if !more && offset == 0 {
                return Err(Reject::Malformed("IPv4 packet is not a fragment"));
            }
            if let Err(reject) = shape(offset, more, payload.len()) {
                return Err(reject);
            }
            let first = if offset == 0 {
                Header::new(vstd::slice::slice_subrange(packet, 0, header.header_len))
            } else {
                None
            };
            Ok(
                Piece {
                    key: Key {
                        source: IpAddr::V4(header.source),
                        destination: IpAddr::V4(header.destination),
                        identification: header.identification as u32,
                        protocol: header.protocol,
                    },
                    offset,
                    more,
                    header: first,
                    payload,
                },
            )
        },
        Ok(Packet::Ipv6 { header, payload }) => {
            if header.next_header != 44 {
                return Err(Reject::Malformed("IPv6 packet is not a fragment"));
            }
            let fragment = match fragment_header(payload) {
                Some(fragment) => fragment,
                None => return Err(Reject::Malformed("IPv6 fragment header does not fit")),
            };
            let offset: usize = fragment.fragment_offset as usize * 8;
            let more = fragment.more_fragments;
            let body = vstd::slice::slice_subrange(payload, 8, payload.len());
            if let Err(reject) = shape(offset, more, body.len()) {
                return Err(reject);
            }
            let mut first: Option<Header> = None;
            if offset == 0 {
                if let Some(mut opening) = Header::new(vstd::slice::slice_subrange(packet, 0, 40)) {
                    opening.set(6, fragment.next_header);
                    first = Some(opening);
                }
            }
            Ok(
                Piece {
                    key: Key {
                        source: IpAddr::V6(header.source),
                        destination: IpAddr::V6(header.destination),
                        identification: fragment.identification,
                        protocol: 0,
                    },
                    offset,
                    more,
                    header: first,
                    payload: body,
                },
            )
        },
    }
}

/// What became of every fragment so far.
#[derive(Clone, Copy, Debug, PartialEq, Eq)]
pub struct Counters {
    pub held: u64,
    pub completed: u64,
    pub malformed: u64,
    pub overlapping: u64,
    pub expired: u64,
    pub headless: u64,
}

impl Counters {
    /// Nothing happened.
    pub open spec fn zero() -> Counters {
        Counters { held: 0, completed: 0, malformed: 0, overlapping: 0, expired: 0, headless: 0 }
    }

    /// Whether every counter can count one more.
    pub open spec fn countable(self) -> bool {
        &&& self.held < u64::MAX
        &&& self.completed < u64::MAX
        &&& self.malformed < u64::MAX
        &&& self.overlapping < u64::MAX
        &&& self.headless < u64::MAX
    }

    /// Whether every counter can count one more.
    pub fn can_count(&self) -> (r: bool)
        ensures
            r == self.countable(),
    {
        self.held < u64::MAX && self.completed < u64::MAX && self.malformed < u64::MAX && self.overlapping
            < u64::MAX && self.headless < u64::MAX
    }

    /// The counters after one fragment.
    pub open spec fn tallied(self, step: Step) -> Counters {
        match step {
            Step::Pending => Counters { held: (self.held + 1) as u64, ..self },
            Step::Complete(_) => Counters { completed: (self.completed + 1) as u64, ..self },
            Step::Refused(Reject::Overlap) => Counters {
                overlapping: (self.overlapping + 1) as u64,
                ..self
            },
            Step::Refused(Reject::Malformed(_)) => Counters {
                malformed: (self.malformed + 1) as u64,
                ..self
            },
        }
    }
}

/// What became of one fragment.
#[verifier::ext_equal]
pub enum Step {
    Pending,
    Complete(Seq<u8>),
    Refused(Reject),
}

/// A reassembly table's state.
#[verifier::ext_equal]
pub struct TableState {
    pub contexts: Map<Key, Held>,
    pub counters: Counters,
}

/// The body size that a fragment announces.
pub open spec fn announced(f: Fragment) -> Option<int> {
    if f.more {
        None
    } else {
        Some(f.offset + f.payload.len())
    }
}

/// Whether a fragment disagrees with what is held about where the body ends.
pub open spec fn conflicts(held: Held, f: Fragment) -> bool {
    let end = f.offset + f.payload.len();
    ||| held.total matches Some(known) && ((announced(f) matches Some(total) && total != known) || end > known
        || f.more && end == known)
    ||| announced(f) matches Some(total) && held.payload.len() > total
}

/// What is held of a datagram before its next fragment.
pub open spec fn base(contexts: Map<Key, Held>, f: Fragment, now: u64) -> Held {
    if contexts.contains_key(f.key) {
        contexts[f.key]
    } else {
        Held {
            payload: Seq::empty(),
            covered: Set::empty(),
            header: None,
            total: None,
            deadline: (now + timeout(f.key)) as u64,
        }
    }
}

/// What is held of a datagram after a fragment that fits.
pub open spec fn joined(held: Held, f: Fragment) -> Held {
    Held {
        payload: placed(held.payload, f.offset, f.payload),
        covered: held.covered.union(offsets(f.offset, f.offset + f.payload.len())),
        header: if f.header is Some { f.header } else { held.header },
        total: if announced(f) is Some { announced(f) } else { held.total },
        deadline: held.deadline,
    }
}

/// Whether an IPv4 datagram would outgrow its length field.
pub open spec fn outgrows(held: Held, f: Fragment) -> bool {
    let header = if f.header is Some { f.header } else { held.header };
    let end = f.offset + f.payload.len();
    let body_end = if held.payload.len() < end { end } else { held.payload.len() as int };
    f.key.source is V4 && (header matches Some(h) && h.len() + body_end > 65535)
}

/// What one fragment does: it is refused, with or without what was held of its datagram; or it is held; or it
/// completes the datagram.
pub open spec fn step(contexts: Map<Key, Held>, f: Fragment, now: u64) -> (Map<Key, Held>, Step) {
    let held = base(contexts, f, now);
    let end = f.offset + f.payload.len();
    if end > max_body(f.key) {
        (contexts, Step::Refused(Reject::Malformed("fragment reaches past a datagram")))
    } else if contexts.contains_key(f.key) && conflicts(held, f) {
        (contexts.remove(f.key), Step::Refused(Reject::Overlap))
    } else if outgrows(held, f) {
        (
            contexts.remove(f.key),
            Step::Refused(Reject::Malformed("IPv4 reassembly exceeds total length")),
        )
    } else if overlaps(held.covered, f.offset, end) {
        (contexts.remove(f.key), Step::Refused(Reject::Overlap))
    } else {
        let next = joined(held, f);
        if next.complete() {
            (contexts.remove(f.key), Step::Complete(assembled(next.header->0, next.payload)))
        } else {
            (contexts.insert(f.key, next), Step::Pending)
        }
    }
}

/// What one packet does to a table.
pub open spec fn received(state: TableState, packet: Seq<u8>, now: u64) -> (TableState, Step) {
    match fragment_of(packet) {
        Err(reject) => {
            let what = Step::Refused(reject);
            (TableState { counters: state.counters.tallied(what), ..state }, what)
        },
        Ok(f) => {
            let (contexts, what) = step(state.contexts, f, now);
            (TableState { contexts, counters: state.counters.tallied(what) }, what)
        },
    }
}

/// Whether everything held is sound.
pub open spec fn contexts_sound(contexts: Map<Key, Held>) -> bool {
    forall|key: Key| #[trigger] contexts.contains_key(key) ==> contexts[key].sound(key)
}

/// A held datagram stays sound, and one that completes has the header of fragment zero.
pub proof fn lemma_joined(contexts: Map<Key, Held>, f: Fragment, now: u64)
    requires
        contexts_sound(contexts),
        fragment_sound(f),
        f.offset + f.payload.len() <= max_body(f.key),
        !(contexts.contains_key(f.key) && conflicts(base(contexts, f, now), f)),
        !outgrows(base(contexts, f, now), f),
    ensures
        ({
            let next = joined(base(contexts, f, now), f);
            &&& next.complete() ==> next.header is Some
            &&& next.header matches Some(h) ==> header_fits(f.key, h, next.payload.len() as int)
            &&& next.payload.len() <= max_body(f.key)
            &&& !next.complete() ==> next.sound(f.key)
            &&& f.payload.len() == 0 ==> base(contexts, f, now).payload.len() == 0 && next.complete()
                && next.total == Some(0int)
            &&& f.payload.len() > 0 ==> next.payload.len() > 0
            &&& next.total matches Some(t) ==> next.payload.len() <= t
        }),
{
    let held = base(contexts, f, now);
    let next = joined(held, f);
    let end = f.offset + f.payload.len();
    if f.payload.len() == 0 {
        assert(next.covered =~= offsets(0, 0));
    } else {
        if end >= held.payload.len() {
            assert(next.covered.contains(end - 1));
        }
        assert(next.covered.contains(next.payload.len() - 1));
        if next.complete() {
            let total = next.total->0;
            assert(next.payload.len() <= total);
            assert(offsets(0, total).contains(0));
            assert(next.covered.contains(0));
        }
    }
}

/// Holds fragments, one context per datagram.
pub struct Table {
    contexts: Rows<Key, Context>,
    counters: Counters,
}

spec fn helds(rows: Map<Key, Context>) -> Map<Key, Held> {
    rows.map_values(|context: Context| context.held())
}

impl View for Table {
    type V = TableState;

    closed spec fn view(&self) -> TableState {
        TableState { contexts: helds(self.contexts@), counters: self.counters }
    }
}

impl Table {
    pub closed spec fn wf(&self) -> bool {
        &&& self.contexts.wf()
        &&& forall|key: Key|
            #[trigger] self.contexts@.contains_key(key) ==> self.contexts@[key].wf()
                && self.contexts@[key].held().sound(
                key,
            )
    }

    /// Everything that a table holds is sound.
    pub proof fn law_what_is_held_is_sound(&self)
        requires
            self.wf(),
        ensures
            contexts_sound(self@.contexts),
    {
        assert forall|key: Key| #[trigger] self@.contexts.contains_key(key) implies self@.contexts[key].sound(key) by {
            assert(self.contexts@.contains_key(key));
        }
    }

    /// An empty table.
    pub fn new() -> (r: Self)
        ensures
            r.wf(),
            r@.contexts == Map::<Key, Held>::empty(),
            r@.counters == Counters::zero(),
    {
        let r = Table {
            contexts: Rows::new(),
            counters: Counters {
                held: 0,
                completed: 0,
                malformed: 0,
                overlapping: 0,
                expired: 0,
                headless: 0,
            },
        };
        assert(r@.contexts =~= Map::<Key, Held>::empty());
        r
    }

    /// How many datagrams are held.
    pub fn len(&self) -> (r: usize)
        requires
            self.wf(),
        ensures
            r == self@.contexts.dom().len(),
    {
        assert(self@.contexts.dom() =~= self.contexts@.dom());
        self.contexts.len()
    }

    /// The counters so far.
    pub fn counters(&self) -> (r: Counters)
        ensures
            r == self@.counters,
    {
        self.counters
    }

    fn discard(&mut self, key: &Key)
        requires
            old(self).wf(),
        ensures
            final(self).wf(),
            final(self)@.contexts == old(self)@.contexts.remove(*key),
            final(self)@.counters == old(self)@.counters,
    {
        self.contexts.remove(key);
        assert(self@.contexts =~= old(self)@.contexts.remove(*key));
    }

    fn conflicting(&self, piece: &Piece<'_>, end: usize, total: Option<usize>) -> (r: bool)
        requires
            self.wf(),
            end == piece.offset + piece.payload@.len(),
            total == (if piece.more { None } else { Some(end) }),
        ensures
            r == (self@.contexts.contains_key(piece.key) && conflicts(
                self@.contexts[piece.key],
                piece.fragment(),
            )),
    {
        match self.contexts.get(&piece.key) {
            None => false,
            Some(context) => {
                let past = match context.total {
                    Some(known) => (match total {
                        Some(total) => total != known,
                        None => false,
                    }) || end > known || piece.more && end == known,
                    None => false,
                };
                let shrunk = match total {
                    Some(total) => context.payload.len() > total,
                    None => false,
                };
                past || shrunk
            },
        }
    }

    fn outgrowing(&self, piece: &Piece<'_>, end: usize, now: u64) -> (r: bool)
        requires
            self.wf(),
            end == piece.offset + piece.payload@.len(),
            end <= 65535,
            fragment_sound(piece.fragment()),
        ensures
            r == outgrows(base(self@.contexts, piece.fragment(), now), piece.fragment()),
    {
        if !piece.key.source.is_ipv4() {
            return false;
        }
        match self.contexts.get(&piece.key) {
            None => match &piece.header {
                Some(header) => header.len() + end > MAX_ENCODED_LENGTH,
                None => false,
            },
            Some(context) => {
                assert(self@.contexts.contains_key(piece.key));
                let held: usize = context.payload.len();
                let body_end: usize = if held < end { end } else { held };
                match (&piece.header, &context.header) {
                    (Some(header), _) => header.len() + body_end > MAX_ENCODED_LENGTH,
                    (None, Some(header)) => header.len() + body_end > MAX_ENCODED_LENGTH,
                    (None, None) => false,
                }
            },
        }
    }

    /// Takes one fragment. A fragment that disagrees with what is held discards the whole datagram.
    pub fn accept(&mut self, packet: &[u8], now: u64) -> (r: Result<Accepted, Reject>)
        requires
            old(self).wf(),
            old(self)@.counters.countable(),
            now <= u64::MAX - IPV6_REASSEMBLY_TIMEOUT,
        ensures
            final(self).wf(),
            final(self)@ == received(old(self)@, packet@, now).0,
            match received(old(self)@, packet@, now).1 {
                Step::Pending => r == Ok::<Accepted, Reject>(Accepted::Pending),
                Step::Complete(whole) => r matches Ok(Accepted::Complete(packet)) && packet@ == whole,
                Step::Refused(reject) => r == Err::<Accepted, Reject>(reject),
            },
    {
        let piece = match parse(packet) {
            Ok(piece) => piece,
            Err(reject) => {
                self.counters.malformed = self.counters.malformed + 1;
                proof {
                    lemma_malformed(packet@);
                }
                return Err(reject);
            },
        };
        let ghost f = piece.fragment();
        let key = piece.key;
        let end: usize = piece.offset + piece.payload.len();
        let maximum_body: usize = match key.source {
            IpAddr::V4(_) => MAX_ENCODED_LENGTH - 20,
            IpAddr::V6(_) => MAX_ENCODED_LENGTH,
        };
        if end > maximum_body {
            self.counters.malformed = self.counters.malformed + 1;
            return Err(Reject::Malformed("fragment reaches past a datagram"));
        }
        let total: Option<usize> = if piece.more { None } else { Some(end) };
        let ghost before = self@.contexts;
        proof {
            assert(contexts_sound(before));
        }
        if self.conflicting(&piece, end, total) {
            self.discard(&key);
            self.counters.overlapping = self.counters.overlapping + 1;
            return Err(Reject::Overlap);
        }
        if self.outgrowing(&piece, end, now) {
            self.discard(&key);
            self.counters.malformed = self.counters.malformed + 1;
            return Err(Reject::Malformed("IPv4 reassembly exceeds total length"));
        }
        let ghost held = base(before, f, now);
        let ghost next = joined(held, f);
        let mut context = match self.contexts.remove(&key) {
            Some(context) => context,
            None => Context {
                payload: Vec::new(),
                received: Vec::new(),
                header: None,
                total: None,
                deadline: match key.source {
                    IpAddr::V4(_) => now + IPV4_REASSEMBLY_TIMEOUT,
                    IpAddr::V6(_) => now + IPV6_REASSEMBLY_TIMEOUT,
                },
            },
        };
        proof {
            assert(self@.contexts =~= before.remove(key));
            if !before.contains_key(key) {
                assert(context.held().covered =~= Set::empty());
                assert(context.held().payload =~= Seq::empty());
            }
            assert(context.held() == held);
            lemma_joined(before, f, now);
        }
        if !insert(&mut context, piece.offset, piece.payload) {
            self.counters.overlapping = self.counters.overlapping + 1;
            return Err(Reject::Overlap);
        }
        if let Some(header) = piece.header {
            context.header = Some(header);
        }
        if let Some(total) = total {
            context.total = Some(total);
        }
        proof {
            assert(context.held() =~= next);
            if f.payload.len() > 0 {
                if context.total is Some {
                    lemma_whole(context.received@, context.total->0);
                }
            }
            assert(context.single() == next.complete());
        }
        if !context.complete() {
            self.counters.held = self.counters.held + 1;
            self.contexts.insert(key, context);
            assert(self@.contexts =~= before.insert(key, next));
            return Ok(Accepted::Pending);
        }
        match context.header {
            None => {
                self.counters.headless = self.counters.headless + 1;
                Err(Reject::Malformed("reassembled without fragment zero"))
            },
            Some(header) => {
                let assembled = assemble(header.as_slice(), context.payload.as_slice());
                self.counters.completed = self.counters.completed + 1;
                Ok(Accepted::Complete(assembled))
            },
        }
    }

    /// Forgets everything held.
    pub fn retire(&mut self)
        ensures
            final(self).wf(),
            final(self)@ == (TableState { contexts: Map::empty(), ..old(self)@ }),
    {
        self.contexts = Rows::new();
        assert(self@.contexts =~= Map::<Key, Held>::empty());
    }

    /// When the next wait ends.
    pub fn next_deadline(&self) -> (r: Option<u64>)
        requires
            self.wf(),
        ensures
            match r {
                Some(t) => {
                    &&& exists|key: Key|
                        #[trigger] self@.contexts.contains_key(key) && self@.contexts[key].deadline == t
                    &&& forall|key: Key|
                        #[trigger] self@.contexts.contains_key(key) ==> t <= self@.contexts[key].deadline
                },
                None => self@.contexts.dom() == Set::<Key>::empty(),
            },
    {
        let r = self.contexts.next_deadline();
        proof {
            if let Some(t) = r {
                let key = choose|key: Key|
                    #[trigger] self.contexts@.contains_key(key) && self.contexts@[key].due() == t;
                assert(self@.contexts.contains_key(key));
            } else {
                assert(self@.contexts.dom() =~= Set::<Key>::empty());
            }
        }
        r
    }
}

/// What an expired datagram is quoted by: what has arrived of it behind its header, where that has.
pub open spec fn quote_of(held: Held) -> Option<Seq<u8>> {
    match held.header {
        Some(header) => Some(assembled(header, held.payload)),
        None => None,
    }
}

/// The quotes of the datagrams of `order` that have one.
pub open spec fn quotes_of(contexts: Map<Key, Held>, order: Seq<Key>) -> Seq<Seq<u8>>
    decreases order.len(),
{
    if order.len() == 0 {
        Seq::empty()
    } else {
        let before = quotes_of(contexts, order.drop_last());
        match quote_of(contexts[order.last()]) {
            Some(quote) => before.push(quote),
            None => before,
        }
    }
}

/// Whether `order` names each due datagram once.
pub open spec fn due_order(contexts: Map<Key, Held>, now: u64, order: Seq<Key>) -> bool {
    &&& order.no_duplicates()
    &&& forall|key: Key|
        #[trigger] order.contains(key) <==> contexts.contains_key(key) && contexts[key].deadline <= now
}

/// No more datagrams are quoted than are due, and no more are due than are held.
pub proof fn lemma_quotes_fit(contexts: Map<Key, Held>, now: u64, order: Seq<Key>)
    requires
        contexts.dom().finite(),
        due_order(contexts, now, order),
    ensures
        quotes_of(contexts, order).len() <= order.len(),
        order.len() <= contexts.dom().len(),
{
    lemma_quotes_len(contexts, order);
    order.unique_seq_to_set();
    assert forall|key: Key| order.to_set().contains(key) implies contexts.dom().contains(key) by {
        assert(order.contains(key));
    }
    vstd::set_lib::lemma_len_subset(order.to_set(), contexts.dom());
}

proof fn lemma_quotes_len(contexts: Map<Key, Held>, order: Seq<Key>)
    ensures
        quotes_of(contexts, order).len() <= order.len(),
    decreases order.len(),
{
    if order.len() > 0 {
        lemma_quotes_len(contexts, order.drop_last());
    }
}

/// The datagrams that are not due at `now`.
pub open spec fn live(contexts: Map<Key, Held>, now: u64) -> Map<Key, Held> {
    contexts.restrict(
        Set::new(|key: Key| contexts.contains_key(key) && contexts[key].deadline > now),
    )
}

impl Table {
    /// Drops one datagram whose wait is over, if there is one, answering what it is quoted by.
    pub fn sweep_one(&mut self, now: u64) -> (r: Option<Option<Vec<u8>>>)
        requires
            old(self).wf(),
            old(self)@.counters.expired < u64::MAX,
            old(self)@.counters.headless < u64::MAX,
        ensures
            final(self).wf(),
            match r {
                None => {
                    &&& final(self)@ == old(self)@
                    &&& forall|key: Key|
                        #[trigger] old(self)@.contexts.contains_key(key) ==> old(self)@.contexts[key].deadline > now
                },
                Some(quote) => exists|key: Key|
                    {
                        let held = old(self)@.contexts[key];
                        &&& #[trigger] old(self)@.contexts.contains_key(key)
                        &&& held.deadline <= now
                        &&& match quote {
                            Some(packet) => quote_of(held) == Some(packet@),
                            None => quote_of(held) is None,
                        }
                        &&& final(self)@ == (TableState {
                            contexts: old(self)@.contexts.remove(key),
                            counters: Counters {
                                expired: (old(self)@.counters.expired + 1) as u64,
                                headless: (old(self)@.counters.headless + if quote is None {
                                    1int
                                } else {
                                    0
                                }) as u64,
                                ..old(self)@.counters
                            },
                        })
                    },
            },
    {
        let mut i: usize = 0;
        let n: usize = self.contexts.len();
        while i < n
            invariant
                i <= n,
                self == old(self),
                self.wf(),
                n == self.contexts.entries().len(),
                self@.counters.expired < u64::MAX,
                self@.counters.headless < u64::MAX,
                forall|j: int|
                    0 <= j < i ==> (#[trigger] self.contexts.entries()[j]).1.held().deadline > now,
            decreases n - i,
        {
            if self.contexts.value_at(i).deadline <= now {
                let key: Key = *self.contexts.key_at(i);
                let context = self.contexts.remove(&key);
                assert(old(self)@.contexts.contains_key(key));
                self.counters.expired = self.counters.expired + 1;
                assert(self@.contexts =~= old(self)@.contexts.remove(key));
                let context = context.unwrap();
                return match context.header {
                    Some(header) => {
                        let quote = assemble(header.as_slice(), context.payload.as_slice());
                        Some(Some(quote))
                    },
                    None => {
                        self.counters.headless = self.counters.headless + 1;
                        Some(None)
                    },
                };
            }
            i += 1;
        }
        proof {
            self.contexts.lemma_entries();
            assert forall|key: Key| #[trigger] self@.contexts.contains_key(key) implies self@.contexts[key].deadline
                > now by {
                let j = choose|j: int|
                    0 <= j < self.contexts.entries().len() && (#[trigger] self.contexts.entries()[j]).0.model() == key;
                assert(self.contexts@[self.contexts.entries()[j].0.model()] == self.contexts.entries()[j].1);
            }
        }
        None
    }

    /// Drops every datagram whose wait is over, appending what each is quoted by, and answers how many there
    /// were.
    pub fn sweep(&mut self, now: u64, quotes: &mut Vec<Vec<u8>>) -> (r: u64)
        requires
            old(self).wf(),
            old(self)@.counters.expired + old(self)@.contexts.dom().len() <= u64::MAX,
            old(self)@.counters.headless + old(self)@.contexts.dom().len() <= u64::MAX,
        ensures
            final(self).wf(),
            final(self)@.contexts == live(old(self)@.contexts, now),
            exists|order: Seq<Key>|
                {
                    &&& #[trigger] due_order(old(self)@.contexts, now, order)
                    &&& r == order.len()
                    &&& packet_views(final(quotes)@) == packet_views(old(quotes)@) + quotes_of(
                        old(self)@.contexts,
                        order,
                    )
                    &&& final(self)@.counters == (Counters {
                        expired: (old(self)@.counters.expired + order.len()) as u64,
                        headless: (old(self)@.counters.headless + order.len() - quotes_of(
                            old(self)@.contexts,
                            order,
                        ).len()) as u64,
                        ..old(self)@.counters
                    })
                },
    {
        let mut retired: u64 = 0;
        let ghost contexts = self@.contexts;
        let ghost counters = self@.counters;
        let ghost mut order: Seq<Key> = Seq::empty();
        proof {
            assert(contexts.remove_keys(order.to_set()) =~= contexts);
            self.lemma_finite();
            assert(packet_views(quotes@) + quotes_of(contexts, order) =~= packet_views(quotes@));
        }
        let ghost start = packet_views(quotes@);
        let mut going = true;
        while going
            invariant
                self.wf(),
                contexts == old(self)@.contexts,
                counters == old(self)@.counters,
                contexts.dom().finite(),
                counters.expired + contexts.dom().len() <= u64::MAX,
                counters.headless + contexts.dom().len() <= u64::MAX,
                start == packet_views(old(quotes)@),
                retired == order.len(),
                order.no_duplicates(),
                order.to_set().subset_of(contexts.dom()),
                forall|key: Key| #[trigger] order.contains(key) ==> contexts[key].deadline <= now,
                self@.contexts == contexts.remove_keys(order.to_set()),
                packet_views(quotes@) == start + quotes_of(contexts, order),
                quotes_of(contexts, order).len() <= order.len(),
                self@.counters == (Counters {
                    expired: (counters.expired + order.len()) as u64,
                    headless: (counters.headless + order.len() - quotes_of(contexts, order).len()) as u64,
                    ..counters
                }),
                !going ==> forall|key: Key|
                    #[trigger] self@.contexts.contains_key(key) ==> self@.contexts[key].deadline > now,
            decreases contexts.dom().len() - order.len() + if going { 1int } else { 0 },
        {
            let ghost before = self@;
            proof {
                order.unique_seq_to_set();
                vstd::set_lib::lemma_len_subset(order.to_set(), contexts.dom());
            }
            if !self.any_due(now) {
                going = false;
            } else {
                proof {
                    let key = choose|key: Key|
                        #[trigger] self@.contexts.contains_key(key) && self@.contexts[key].deadline <= now;
                    order.unique_seq_to_set();
                    vstd::set_lib::lemma_len_subset(order.to_set().insert(key), contexts.dom());
                }
                if let Some(quote) = self.sweep_one(now) {
                    let ghost key = choose|key: Key|
                        {
                            let held = before.contexts[key];
                            &&& #[trigger] before.contexts.contains_key(key)
                            &&& held.deadline <= now
                            &&& match quote {
                                Some(packet) => quote_of(held) == Some(packet@),
                                None => quote_of(held) is None,
                            }
                            &&& self@ == (TableState {
                                contexts: before.contexts.remove(key),
                                counters: Counters {
                                    expired: (before.counters.expired + 1) as u64,
                                    headless: (before.counters.headless + if quote is None {
                                        1int
                                    } else {
                                        0
                                    }) as u64,
                                    ..before.counters
                                },
                            })
                        };
                    retired = retired + 1;
                    let ghost was = order;
                    proof {
                        order = order.push(key);
                        assert(order.drop_last() =~= was);
                        assert(!was.contains(key)) by {
                            if was.contains(key) {
                                assert(was.to_set().contains(key));
                            }
                        }
                        lemma_push_order(was, key);
                        assert(self@.contexts =~= contexts.remove_keys(order.to_set()));
                        assert(contexts[key] == before.contexts[key]);
                    }
                    if let Some(packet) = quote {
                        proof {
                            assert(packet_views(quotes@.push(packet)) =~= packet_views(quotes@).push(packet@));
                            assert(start + quotes_of(contexts, was).push(packet@) =~= (start + quotes_of(
                                contexts,
                                was,
                            )).push(packet@));
                        }
                        quotes.push(packet);
                    }
                } else {
                    going = false;
                }
            }
        }
        proof {
            assert(self@.contexts =~= live(contexts, now));
            assert forall|key: Key| #[trigger] order.contains(key) <==> contexts.contains_key(key)
                && contexts[key].deadline <= now by {
                if order.contains(key) {
                    assert(order.to_set().contains(key));
                }
                if contexts.contains_key(key) && contexts[key].deadline <= now && !order.contains(key) {
                    assert(!order.to_set().contains(key));
                    assert(self@.contexts.contains_key(key));
                }
            }
            assert(due_order(contexts, now, order));
        }
        retired
    }

    /// Whether any wait is over.
    pub fn any_due(&self, now: u64) -> (r: bool)
        requires
            self.wf(),
        ensures
            r == exists|key: Key| #[trigger] self@.contexts.contains_key(key) && self@.contexts[key].deadline <= now,
    {
        match self.next_deadline() {
            Some(t) => t <= now,
            None => {
                assert(forall|key: Key| !(#[trigger] self@.contexts.contains_key(key))) by {
                    assert forall|key: Key| !(#[trigger] self@.contexts.contains_key(key)) by {
                        assert(!self@.contexts.dom().contains(key));
                    }
                }
                false
            },
        }
    }

    /// There are finitely many contexts.
    pub proof fn lemma_finite(&self)
        requires
            self.wf(),
        ensures
            self@.contexts.dom().finite(),
    {
        self.contexts.lemma_entries();
        assert(self@.contexts.dom() =~= self.contexts@.dom());
    }
}

proof fn lemma_push_order(order: Seq<Key>, key: Key)
    requires
        order.no_duplicates(),
        !order.contains(key),
    ensures
        order.push(key).no_duplicates(),
        order.push(key).to_set() == order.to_set().insert(key),
        forall|k: Key| #[trigger] order.push(key).contains(k) ==> order.contains(k) || k == key,
{
    let next = order.push(key);
    assert forall|k: Key| #[trigger] next.contains(k) implies order.contains(k) || k == key by {
        let i = choose|i: int| 0 <= i < next.len() && next[i] == k;
        if i < order.len() {
            assert(order[i] == k);
        }
    }
    assert forall|k: Key| next.to_set().contains(k) == order.to_set().insert(key).contains(k) by {
        if order.contains(k) {
            let i = choose|i: int| 0 <= i < order.len() && order[i] == k;
            assert(next[i] == k);
        }
        assert(next[order.len() as int] == key);
    }
    assert(next.to_set() =~= order.to_set().insert(key));
}

impl Table {
    /// The table in words.
    pub open spec fn text(state: TableState) -> Seq<char> {
        decimal(state.contexts.dom().len()) + " contexts, held "@ + decimal(state.counters.held as nat)
            + " completed "@ + decimal(state.counters.completed as nat) + " malformed "@ + decimal(
            state.counters.malformed as nat,
        ) + " overlapping "@ + decimal(state.counters.overlapping as nat) + " expired "@ + decimal(
            state.counters.expired as nat,
        ) + " headless "@ + decimal(state.counters.headless as nat)
    }

    /// Describes the table.
    pub fn describe(&self) -> (r: String)
        requires
            self.wf(),
        ensures
            r@ == Self::text(self@),
    {
        let mut out = String::new();
        push_decimal(&mut out, self.len() as u64);
        push_field(&mut out, " contexts, held ", self.counters.held);
        push_field(&mut out, " completed ", self.counters.completed);
        push_field(&mut out, " malformed ", self.counters.malformed);
        push_field(&mut out, " overlapping ", self.counters.overlapping);
        push_field(&mut out, " expired ", self.counters.expired);
        push_field(&mut out, " headless ", self.counters.headless);
        assert(out@ =~= Self::text(self@));
        out
    }
}

proof fn lemma_malformed(packet: Seq<u8>)
    ensures
        fragment_of(packet) matches Err(reject) ==> reject is Malformed,
{
}

/// Whether what is held of a datagram is part of one with this header and this payload: every octet that came is the
/// payload's, and neither the end nor the header is another's.
pub open spec fn part_of(held: Held, header: Seq<u8>, payload: Seq<u8>) -> bool {
    &&& held.payload.len() <= payload.len()
    &&& forall|i: int|
        #[trigger] held.covered.contains(i) ==> 0 <= i < held.payload.len() && held.payload[i] == payload[i]
    &&& held.total is None || held.total == Some(payload.len() as int)
    &&& held.header is None || held.header == Some(header)
    &&& held.covered.contains(0) ==> held.header is Some
}

/// The fragments of a datagram come together to the datagram, whatever order they come in. One that has not come yet
/// joins those that have: while octets are missing it is held with them, and when none is missing any more the datagram
/// comes out, every octet in its place, and nothing of it is held any longer.
pub proof fn law_fragments_join_in_any_order(
    contexts: Map<Key, Held>,
    f: Fragment,
    now: u64,
    header: Seq<u8>,
    payload: Seq<u8>,
)
    requires
        0 < payload.len() <= 65_515,
        f.key.source is V4 ==> header.len() + payload.len() <= 65_535,
        contexts.contains_key(f.key) ==> part_of(contexts[f.key], header, payload),
        0 <= f.offset,
        0 < f.payload.len(),
        f.offset + f.payload.len() <= payload.len(),
        f.payload == payload.subrange(f.offset, f.offset + f.payload.len()),
        f.more <==> f.offset + f.payload.len() < payload.len(),
        f.offset == 0 ==> f.header == Some(header),
        f.offset != 0 ==> f.header is None,
        contexts.contains_key(f.key) ==> forall|i: int|
            f.offset <= i < f.offset + f.payload.len() ==> !#[trigger] contexts[f.key].covered.contains(i),
    ensures
        ({
            let (after, what) = step(contexts, f, now);
            let came = |i: int|
                f.offset <= i < f.offset + f.payload.len() || contexts.contains_key(f.key)
                    && contexts[f.key].covered.contains(i);
            let ended = !f.more || contexts.contains_key(f.key) && contexts[f.key].total is Some;
            let all = ended && forall|i: int| 0 <= i < payload.len() ==> #[trigger] came(i);
            &&& all ==> what == Step::Complete(assembled(header, payload)) && !after.contains_key(f.key)
            &&& !all ==> {
                &&& what is Pending
                &&& after.contains_key(f.key)
                &&& part_of(after[f.key], header, payload)
                &&& forall|i: int| #[trigger] after[f.key].covered.contains(i) <==> came(i)
                &&& ended ==> after[f.key].total == Some(payload.len() as int)
            }
            &&& forall|other: Key|
                other != f.key ==> (#[trigger] after.contains_key(other) <==> contexts.contains_key(other))
            &&& forall|other: Key|
                #![trigger after[other]]
                other != f.key && contexts.contains_key(other) ==> after[other] == contexts[other]
        }),
{
    let held = base(contexts, f, now);
    let end = f.offset + f.payload.len();
    let next = joined(held, f);
    let came = |i: int|
        f.offset <= i < f.offset + f.payload.len() || contexts.contains_key(f.key) && contexts[f.key].covered.contains(
            i,
        );
    let ended = !f.more || contexts.contains_key(f.key) && contexts[f.key].total is Some;
    let all = ended && forall|i: int| 0 <= i < payload.len() ==> #[trigger] came(i);
    assert(!conflicts(held, f));
    assert(!outgrows(held, f));
    assert(!overlaps(held.covered, f.offset, end));
    assert forall|i: int| #[trigger] next.covered.contains(i) <==> came(i) by {}
    assert(part_of(next, header, payload));
    if all {
        assert(next.total == Some(payload.len() as int));
        assert(next.covered =~= offsets(0, payload.len() as int)) by {
            assert forall|i: int| #[trigger] next.covered.contains(i) <==> offsets(0, payload.len() as int).contains(
                i,
            ) by {
                if 0 <= i < payload.len() {
                    assert(came(i));
                }
            }
        }
        assert(came(payload.len() - 1));
        assert(next.covered.contains(payload.len() - 1));
        assert(came(0));
        assert(next.covered.contains(0));
        assert(next.payload =~= payload) by {
            assert forall|i: int| 0 <= i < payload.len() implies next.payload[i] == payload[i] by {
                assert(next.covered.contains(i));
            }
        }
    } else {
        if next.complete() {
            assert(next.total is Some);
            assert(ended);
            assert forall|i: int| 0 <= i < payload.len() implies #[trigger] came(i) by {
                assert(offsets(0, payload.len() as int).contains(i));
                assert(next.covered.contains(i));
            }
        }
    }
}

/// A fragment that covers an octet which came before is refused, and nothing that was held with it is used.
pub proof fn law_no_octet_comes_twice(contexts: Map<Key, Held>, f: Fragment, now: u64, i: int)
    requires
        contexts.contains_key(f.key),
        f.offset <= i < f.offset + f.payload.len(),
        contexts[f.key].covered.contains(i),
    ensures
        ({
            let (after, what) = step(contexts, f, now);
            &&& what is Refused
            &&& f.offset + f.payload.len() <= 65_515 ==> after == contexts.remove(f.key)
        }),
{
    assert(overlaps(contexts[f.key].covered, f.offset, f.offset + f.payload.len()));
}

/// Two fragments that disagree about where their datagram ends are both given up, and so is a fragment that reaches
/// past an end that is known, and an end that lies before octets that came.
pub proof fn law_a_datagram_has_one_end(contexts: Map<Key, Held>, f: Fragment, now: u64)
    requires
        contexts.contains_key(f.key),
        f.offset + f.payload.len() <= 65_515,
        ({
            let held = contexts[f.key];
            let end = f.offset + f.payload.len();
            ||| held.total is Some && !f.more && end != held.total->0
            ||| held.total is Some && end > held.total->0
            ||| held.total is Some && f.more && end == held.total->0
            ||| !f.more && held.payload.len() > end
        }),
    ensures
        step(contexts, f, now) == (contexts.remove(f.key), Step::Refused(Reject::Overlap)),
{
}

/// No datagram is longer than the longest there can be: 65515 octets behind an IPv4 header, 65535 behind an IPv6 one. A
/// fragment that reaches past that is refused, and what is held stays.
pub proof fn law_no_datagram_is_too_long(contexts: Map<Key, Held>, f: Fragment, now: u64)
    ensures
        f.key.source is V4 && f.offset + f.payload.len() > 65_515 ==> step(contexts, f, now).0 == contexts && step(
            contexts,
            f,
            now,
        ).1 is Refused,
        f.key.source is V6 && f.offset + f.payload.len() > 65_535 ==> step(contexts, f, now).0 == contexts && step(
            contexts,
            f,
            now,
        ).1 is Refused,
        max_body(f.key) == if f.key.source is V4 {
            65_515int
        } else {
            65_535
        },
{
}

/// The first fragment of a datagram sets how long the others are waited for, half a minute over IPv4 and a minute over
/// IPv6, and none that comes later puts it off.
pub proof fn law_a_datagram_is_waited_for_once(contexts: Map<Key, Held>, f: Fragment, now: u64)
    requires
        now + 60_000_000_000 <= u64::MAX,
        step(contexts, f, now).1 is Pending,
    ensures
        step(contexts, f, now).0.contains_key(f.key),
        contexts.contains_key(f.key) ==> step(contexts, f, now).0[f.key].deadline == contexts[f.key].deadline,
        !contexts.contains_key(f.key) && f.key.source is V4 ==> step(contexts, f, now).0[f.key].deadline == now
            + 30_000_000_000,
        !contexts.contains_key(f.key) && f.key.source is V6 ==> step(contexts, f, now).0[f.key].deadline == now
            + 60_000_000_000,
{
}

/// A datagram that came together over IPv4 is one whole packet again: it is as long as it says, is no fragment, has a
/// checksum that belongs to it, and is otherwise the first fragment's header followed by the payload.
pub proof fn law_an_assembled_ipv4_packet_is_whole(header: Seq<u8>, payload: Seq<u8>, i: int)
    requires
        ipv4_header_fits(header),
        header.len() == (header[0] % 16) * 4,
        header.len() + payload.len() <= 65_535,
    ensures
        ({
            let s = assembled(header, payload);
            &&& s.len() == header.len() + payload.len()
            &&& s[2] * 256 + s[3] == s.len()
            &&& s[6] == 0
            &&& s[7] == 0
            &&& be16(s, 10) == ones_complement(ipv4_checksummed(s))
            &&& s.subrange(header.len() as int, s.len() as int) == payload
            &&& 0 <= i < header.len() && i != 2 && i != 3 && i != 6 && i != 7 && i != 10 && i != 11 ==> s[i]
                == header[i]
            &&& packet_error(s) is None
        }),
{
    let s = assembled(header, payload);
    let packet = header + payload;
    let length = oct2(packet.len() as int);
    let whole = packet.update(2, length[0]).update(3, length[1]).update(6, 0).update(7, 0).update(10, 0).update(11, 0);
    let sum = ones_complement(ipv4_checksummed(whole));
    assert(packet[0] == header[0]);
    assert(ipv4_header_fits(whole));
    assert(s == whole.update(10, oct2(sum as int)[0]).update(11, oct2(sum as int)[1]));
    assert(ipv4_checksummed(s) =~= ipv4_checksummed(whole));
    assert(s.subrange(10, 12) =~= oct2(sum as int));
    law_read_back_u16(s, 10, sum as int);
    assert(s.subrange(2, 4) =~= length);
    law_read_back_u16(s, 2, packet.len() as int);
    assert(s.subrange(header.len() as int, s.len() as int) =~= payload);
}

/// A datagram that came together over IPv6 is one whole packet again: it is as long as it says, and is otherwise the
/// first fragment's header, which names what followed the fragment header, followed by the payload.
pub proof fn law_an_assembled_ipv6_packet_is_whole(header: Seq<u8>, payload: Seq<u8>, i: int)
    requires
        header.len() == 40,
        header[0] / 16 == 6,
        payload.len() <= 65_535,
    ensures
        ({
            let s = assembled(header, payload);
            &&& s.len() == 40 + payload.len()
            &&& s[4] * 256 + s[5] == payload.len()
            &&& s.subrange(40, s.len() as int) == payload
            &&& 0 <= i < 40 && i != 4 && i != 5 ==> s[i] == header[i]
            &&& packet_error(s) is None
        }),
{
    let s = assembled(header, payload);
    let packet = header + payload;
    assert(packet[0] == header[0]);
    assert(s.subrange(4, 6) =~= oct2(payload.len() as int));
    law_read_back_u16(s, 4, payload.len() as int);
    assert(s.subrange(40, s.len() as int) =~= payload);
}

/// A piece that is put in its place is found there, and everything around it stays.
pub proof fn law_a_piece_lies_where_it_belongs(payload: Seq<u8>, offset: int, piece: Seq<u8>)
    requires
        0 <= offset,
    ensures
        ({
            let after = placed(payload, offset, piece);
            let end = offset + piece.len();
            &&& after.len() == if payload.len() < end {
                end
            } else {
                payload.len() as int
            }
            &&& after.subrange(offset, end) == piece
            &&& forall|i: int|
                0 <= i < payload.len() && (i < offset || end <= i) ==> #[trigger] after[i] == payload[i]
        }),
{
    let after = placed(payload, offset, piece);
    assert(after.subrange(offset, offset + piece.len()) =~= piece);
}

/// A fragment of IPv4 is read off its packet exactly where the packet is one, and has octets in whole eights unless it
/// is the last. It belongs with those of its addresses, its identification and its transport. Its octets belong where
/// it says, in eights, and the first brings the header that the datagram is to have.
pub proof fn law_an_ipv4_fragment_is_read_off_its_packet(s: Seq<u8>)
    requires
        packet_error(s) is None,
        s[0] < 0x60,
    ensures
        ({
            let at = (s[0] - 0x40) * 4;
            let offset = ((s[6] % 32) * 256 + s[7]) * 8;
            let more = s[6] % 64 >= 32;
            let n = s.len() - at;
            let r = fragment_of(s);
            &&& r is Ok <==> (more || offset != 0) && n > 0 && (!more || n % 8 == 0)
            &&& r is Ok ==> {
                let f = r->Ok_0;
                &&& f.key.source == IpAddr::V4(be32(s, 12) as u32)
                &&& f.key.destination == IpAddr::V4(be32(s, 16) as u32)
                &&& f.key.identification == be16(s, 4)
                &&& f.key.protocol == s[9]
                &&& f.offset == offset
                &&& f.more == more
                &&& f.payload == s.subrange(at, s.len() as int)
                &&& offset == 0 ==> f.header == Some(s.subrange(0, at))
                &&& offset != 0 ==> f.header is None
            }
        }),
{
    law_a_packet_is_as_long_as_it_says(s);
    law_where_the_ipv4_fields_stand(s);
}

/// A fragment of IPv6 is read off its packet exactly where a whole fragment header follows the IP header, with octets
/// in whole eights unless it is the last. It belongs with those of its addresses and its identification, whatever its
/// transport. The first brings the header that the datagram is to have, which names what followed the fragment header.
pub proof fn law_an_ipv6_fragment_is_read_off_its_packet(s: Seq<u8>)
    requires
        packet_error(s) is None,
        s[0] >= 0x60,
    ensures
        ({
            let offset = (s[42] * 256 + s[43]) / 8 * 8;
            let more = s[43] % 2 == 1;
            let n = s.len() - 48;
            let r = fragment_of(s);
            &&& r is Ok <==> s[6] == 44 && n >= 0 && (more ==> n > 0 && n % 8 == 0) && (!more && offset != 0 ==> n > 0)
            &&& r is Ok ==> {
                let f = r->Ok_0;
                &&& f.key.source == IpAddr::V6(be128(s, 8) as u128)
                &&& f.key.destination == IpAddr::V6(be128(s, 24) as u128)
                &&& f.key.identification == be32(s, 44)
                &&& f.key.protocol == 0
                &&& f.offset == offset
                &&& f.more == more
                &&& f.payload == s.subrange(48, s.len() as int)
                &&& offset == 0 ==> f.header == Some(s.subrange(0, 40).update(6, s[40]))
                &&& offset != 0 ==> f.header is None
            }
        }),
{
    law_a_packet_is_as_long_as_it_says(s);
    let t = s.subrange(40, s.len() as int);
    if t.len() >= 8 {
        assert(t[0] == s[40] && t[2] == s[42] && t[3] == s[43]);
        assert(t[4] == s[44] && t[5] == s[45] && t[6] == s[46] && t[7] == s[47]);
        lemma_be_bounds(s, 44);
        assert(t.subrange(8, t.len() as int) =~= s.subrange(48, s.len() as int));
    }
}

/// Every packet is counted once for what became of it. One that is no fragment changes nothing that is held.
pub proof fn law_every_fragment_is_counted_once(state: TableState, packet: Seq<u8>, now: u64)
    requires
        state.counters.countable(),
    ensures
        ({
            let (after, what) = received(state, packet, now);
            let c = state.counters;
            let d = after.counters;
            &&& d.held - c.held == if what is Pending {
                1int
            } else {
                0
            }
            &&& d.completed - c.completed == if what is Complete {
                1int
            } else {
                0
            }
            &&& d.overlapping - c.overlapping == if what == Step::Refused(Reject::Overlap) {
                1int
            } else {
                0
            }
            &&& (d.held - c.held) + (d.completed - c.completed) + (d.overlapping - c.overlapping) + (d.malformed
                - c.malformed) == 1
            &&& d.expired == c.expired
            &&& d.headless == c.headless
            &&& fragment_of(packet) is Err ==> after.contexts == state.contexts && what == Step::Refused(
                fragment_of(packet)->Err_0,
            )
            &&& fragment_of(packet) is Ok ==> (after.contexts, what) == step(
                state.contexts,
                fragment_of(packet)->Ok_0,
                now,
            )
        }),
{
}

/// A datagram whose time is over can be told about exactly where its first fragment came: then it is quoted from its
/// header on. What is still waited for stays.
pub proof fn law_what_ran_out_of_time(contexts: Map<Key, Held>, order: Seq<Key>, key: Key, now: u64)
    ensures
        quote_of(contexts[key]) is Some <==> contexts[key].header is Some,
        contexts[key].header is Some ==> quote_of(contexts[key]) == Some(
            assembled(contexts[key].header->0, contexts[key].payload),
        ),
        quotes_of(contexts, Seq::<Key>::empty()).len() == 0,
        contexts[key].header is Some ==> quotes_of(contexts, order.push(key)) == quotes_of(contexts, order).push(
            assembled(contexts[key].header->0, contexts[key].payload),
        ),
        contexts[key].header is None ==> quotes_of(contexts, order.push(key)) == quotes_of(contexts, order),
        live(contexts, now).contains_key(key) <==> contexts.contains_key(key) && now < contexts[key].deadline,
        live(contexts, now).contains_key(key) ==> live(contexts, now)[key] == contexts[key],
        due_order(contexts, now, order) ==> (order.contains(key) <==> contexts.contains_key(key)
            && contexts[key].deadline <= now),
{
    assert(order.push(key).drop_last() =~= order);
    assert(order.push(key).last() == key);
}

/// A table is told with how many datagrams wait and then counter by counter, each with its own name before it.
pub proof fn law_a_table_is_told_by_name(state: TableState)
    ensures
        Table::text(state) == listed(
            seq![
                (Seq::empty(), state.contexts.dom().len()),
                (" contexts, held "@, state.counters.held as nat),
                (" completed "@, state.counters.completed as nat),
                (" malformed "@, state.counters.malformed as nat),
                (" overlapping "@, state.counters.overlapping as nat),
                (" expired "@, state.counters.expired as nat),
                (" headless "@, state.counters.headless as nat),
            ],
            7,
        ),
{
    let count = decimal(state.contexts.dom().len());
    reveal_with_fuel(listed, 8);
    assert(Seq::<char>::empty() + Seq::<char>::empty() + count =~= count);
}

/// Why a packet is no fragment that can be used is told in words: the first thing that stands against it.
pub proof fn law_why_a_fragment_cannot_be_used_is_told(s: Seq<u8>)
    ensures
        packet_error(s) is Some ==> fragment_of(s) == Err::<Fragment, Reject>(
            Reject::Malformed(packet_error(s)->0.text()),
        ),
        packet_error(s) is None && s[0] < 0x60 && s[6] % 64 == 0 && s[7] == 0 ==> fragment_of(s) == Err::<
            Fragment,
            Reject,
        >(Reject::Malformed("IPv4 packet is not a fragment")),
        packet_error(s) is None && s[0] >= 0x60 && s[6] != 44 ==> fragment_of(s) == Err::<Fragment, Reject>(
            Reject::Malformed("IPv6 packet is not a fragment"),
        ),
        packet_error(s) is None && s[0] >= 0x60 && s[6] == 44 && s.len() < 48 ==> fragment_of(s) == Err::<
            Fragment,
            Reject,
        >(Reject::Malformed("IPv6 fragment header does not fit")),
{
    if packet_error(s) is None {
        law_a_packet_is_as_long_as_it_says(s);
        if s[0] < 0x60 {
            law_where_the_ipv4_fields_stand(s);
        }
    }
}

/// A fragment has to carry something unless it is all of its datagram, and whole eights unless it is the last.
/// Otherwise it is told which of these it does not.
pub proof fn law_what_a_fragment_has_to_carry(offset: int, more: bool, n: int)
    requires
        n >= 0,
    ensures
        shape_error(offset, more, n) is None <==> (more ==> n > 0 && n % 8 == 0) && (!more && offset != 0 ==> n > 0),
        more && n == 0 ==> shape_error(offset, more, n) == Some(
            Reject::Malformed("a non-final fragment carries no payload"),
        ),
        more && n % 8 != 0 ==> shape_error(offset, more, n) == Some(
            Reject::Malformed("a non-final fragment is not a multiple of eight octets"),
        ),
        !more && offset != 0 && n == 0 ==> shape_error(offset, more, n) == Some(
            Reject::Malformed("a final fragment carries no payload"),
        ),
{
}

/// A fragment that would make its datagram too long is told so, whether it reaches too far itself or does with the
/// header.
pub proof fn law_too_long_a_datagram_is_told(contexts: Map<Key, Held>, f: Fragment, now: u64, header: Seq<u8>)
    requires
        f.key.source is V4,
        !contexts.contains_key(f.key),
        f.header == Some(header),
    ensures
        f.offset + f.payload.len() > 65_515 ==> step(contexts, f, now).1 == Step::Refused(
            Reject::Malformed("fragment reaches past a datagram"),
        ),
        f.offset + f.payload.len() <= 65_515 && header.len() + f.offset + f.payload.len() > 65_535 ==> step(
            contexts,
            f,
            now,
        ).1 == Step::Refused(Reject::Malformed("IPv4 reassembly exceeds total length")),
{
}

} // verus!
