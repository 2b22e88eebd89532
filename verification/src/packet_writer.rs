//! Turns datagrams into packets that fit the interface, and hands each datagram over whole.
use vstd::prelude::*;

use crate::addr::IpAddr;
use crate::checksum::{
    ipv4_checksummed, ipv4_header_checksum, law_a_checksum_makes_up_for_its_octets, ones_complement, word_sum,
};
use crate::ip_wire::{
    ipv4_fields, ipv4_header, ipv4_header_bytes, ipv4_header_fits, ipv4_header_layout,
    law_a_packet_is_as_long_as_it_says, law_where_the_ipv4_fields_stand, lemma_ipv4_layout, packet_error,
    Error as IpError, Ipv4Fields, Packet,
};
use crate::ipv4_identification::{
    nth_value, Denial, Guarded, Ipv4Identifications, Issued, Terminal, Tuple,
};
use crate::octets::{
    be16, be32, law_read_back_u16, law_read_back_u32, oct2, oct4, push_range, push_u16, push_u32,
};
use crate::tun_handoff::{packet_views, Batch};

verus! {

pub const IPV4_HEADER_LEN: usize = 20;

pub const IPV6_HEADER_LEN: usize = 40;

pub const IPV6_FRAGMENT_HEADER_LEN: usize = 8;

/// What a fragment announces itself with.
pub const IPV6_FRAGMENT_NEXT_HEADER: u8 = 44;

/// What every fragment but the last is a multiple of.
pub const FRAGMENT_ALIGNMENT: usize = 8;

/// Why a datagram cannot be written.
#[derive(Debug, PartialEq, Eq)]
pub enum WriterError {
    Malformed(&'static str),
    TooLarge { size: usize, mtu: usize },
    Unfragmentable(&'static str),
}

/// What a packet that is not one datagram is refused with.
pub open spec fn malformed(error: IpError) -> WriterError {
    WriterError::Malformed(
        match error {
            IpError::Ipv4Header => "IPv4 packet shorter than its header",
            IpError::Ipv4Length => "IPv4 total length disagrees",
            IpError::Ipv6Header => "IPv6 packet shorter than its header",
            IpError::Ipv6Length => "IPv6 payload length disagrees",
            IpError::NotIp => "not an IPv4 or IPv6 packet",
        },
    )
}

/// Accepts a packet that is one datagram and fits the MTU.
pub fn validate(packet: &[u8], mtu: usize) -> (r: Result<(), WriterError>)
    ensures
        r == (match packet_error(packet@) {
            Some(error) => Err::<(), WriterError>(malformed(error)),
            None => if packet@.len() > mtu {
                Err(WriterError::TooLarge { size: packet@.len() as usize, mtu })
            } else {
                Ok(())
            },
        }),
{
    if let Err(error) = Packet::parse(packet) {
        return Err(
            WriterError::Malformed(
                match error {
                    IpError::Ipv4Header => "IPv4 packet shorter than its header",
                    IpError::Ipv4Length => "IPv4 total length disagrees",
                    IpError::Ipv6Header => "IPv6 packet shorter than its header",
                    IpError::Ipv6Length => "IPv6 payload length disagrees",
                    IpError::NotIp => "not an IPv4 or IPv6 packet",
                },
            ),
        );
    }
    if packet.len() > mtu {
        return Err(WriterError::TooLarge { size: packet.len(), mtu });
    }
    Ok(())
}

/// How many payload octets a fragment carries behind `overhead`, where any fit.
pub open spec fn per_fragment(mtu: int, overhead: int) -> Option<int> {
    if mtu - overhead >= 8 {
        Some((mtu - overhead) / 8 * 8)
    } else {
        None
    }
}

/// Where the piece that starts at `offset` ends.
pub open spec fn piece_end(offset: int, len: int, per: int) -> int {
    if len - offset <= per {
        len
    } else {
        offset + per
    }
}

/// The pieces of a payload from `offset` on: where each starts and ends.
pub open spec fn pieces(offset: int, len: int, per: int) -> Seq<(int, int)>
    decreases len - offset,
{
    if offset >= len || per <= 0 {
        Seq::empty()
    } else {
        let end = piece_end(offset, len, per);
        seq![(offset, end)] + pieces(end, len, per)
    }
}

/// The IPv6 fragment that carries one piece.
#[verifier::opaque]
pub open spec fn ipv6_fragment(packet: Seq<u8>, identification: u32, piece: (int, int)) -> Seq<u8> {
    let payload = packet.subrange(40, packet.len() as int);
    let more = piece.1 < payload.len();
    packet.subrange(0, 4) + oct2((8 + piece.1 - piece.0) % 65536) + seq![44u8] + packet.subrange(7, 40)
        + seq![packet[6], 0u8] + oct2(piece.0 % 65536 + if more { 1int } else { 0 }) + oct4(
        identification as int,
    ) + payload.subrange(piece.0, piece.1)
}

/// The IPv6 fragments of the pieces from `offset` on.
pub open spec fn ipv6_fragments(
    packet: Seq<u8>,
    identification: u32,
    per: int,
    offset: int,
) -> Seq<Seq<u8>> {
    pieces(offset, packet.len() - 40, per).map_values(
        |piece: (int, int)| ipv6_fragment(packet, identification, piece),
    )
}

/// What fragmenting an IPv6 packet is refused with.
pub open spec fn ipv6_refusal(packet: Seq<u8>, mtu: usize) -> Option<WriterError> {
    if packet.len() < 40 || packet[0] / 16 != 6 {
        Some(WriterError::Malformed("not an IPv6 packet"))
    } else if packet[6] == 0 || packet[6] == 43 || packet[6] == 60 {
        Some(
            WriterError::Unfragmentable(
                "leading extension header belongs to the unfragmentable part",
            ),
        )
    } else if packet[6] == 44 {
        Some(WriterError::Unfragmentable("already fragmented"))
    } else if per_fragment(mtu as int, 48) is None {
        Some(WriterError::TooLarge { size: 56, mtu })
    } else if packet.len() == 40 {
        Some(WriterError::Malformed("IPv6 datagram has no payload"))
    } else {
        None
    }
}

/// Pieces tile the payload: they follow each other from `offset` to its end, and all but the last are whole
/// multiples of eight octets.
pub proof fn lemma_pieces(offset: int, len: int, per: int)
    requires
        0 <= offset,
        per > 0,
        per % 8 == 0,
    ensures
        ({
            let all = pieces(offset, len, per);
            &&& (offset < len) == (all.len() > 0)
            &&& all.len() > 0 ==> all[0].0 == offset && all.last().1 == len
            &&& forall|k: int|
                #![trigger all[k]]
                0 <= k < all.len() ==> offset <= all[k].0 < all[k].1 <= len && all[k].1 - all[k].0 <= per
            &&& forall|k: int|
                #![trigger all[k]]
                0 <= k < all.len() - 1 ==> all[k].1 == all[k + 1].0 && all[k].1 < len && (all[k].1
                    - all[k].0) % 8 == 0
            &&& all.len() * 8 <= len - offset + 8 || all.len() == 0
        }),
        offset % 8 == 0 ==> forall|k: int|
            #![trigger pieces(offset, len, per)[k]]
            0 <= k < pieces(offset, len, per).len() ==> pieces(offset, len, per)[k].0 % 8 == 0,
    decreases len - offset,
{
    if offset < len {
        let end = piece_end(offset, len, per);
        let rest = pieces(end, len, per);
        let all = pieces(offset, len, per);
        lemma_pieces(end, len, per);
        assert(all =~= seq![(offset, end)] + rest);
        assert forall|k: int| #![trigger all[k]] 0 <= k < all.len() - 1 implies all[k].1 == all[k + 1].0
            && all[k].1 < len && (all[k].1 - all[k].0) % 8 == 0 by {
            if k > 0 {
                assert(all[k] == rest[k - 1]);
                assert(all[k + 1] == rest[k]);
            } else {
                assert(all[1] == rest[0]);
            }
        }
        assert forall|k: int| #![trigger all[k]] 0 <= k < all.len() implies offset <= all[k].0 < all[k].1
            <= len && all[k].1 - all[k].0 <= per by {
            if k > 0 {
                assert(all[k] == rest[k - 1]);
            }
        }
        if rest.len() > 0 {
            assert(all.last() == rest.last());
        }
        if offset % 8 == 0 {
            assert forall|k: int| #![trigger all[k]] 0 <= k < all.len() implies all[k].0 % 8 == 0 by {
                if k > 0 {
                    assert(end % 8 == 0);
                    assert(all[k] == rest[k - 1]);
                }
            }
        }
    }
}

fn ipv6_fragment_bytes(packet: &[u8], identification: u32, start: usize, end: usize) -> (r: Vec<u8>)
    requires
        start < end,
        40 + end <= packet@.len(),
        start % 8 == 0,
    ensures
        r@ == ipv6_fragment(packet@, identification, (start as int, end as int)),
{
    reveal(ipv6_fragment);
    let length: usize = packet.len() - IPV6_HEADER_LEN;
    let mut fragment: Vec<u8> = Vec::new();
    push_range(&mut fragment, packet, 0, 4);
    push_u16(&mut fragment, ((IPV6_FRAGMENT_HEADER_LEN + (end - start)) % 65536) as u16);
    fragment.push(IPV6_FRAGMENT_NEXT_HEADER);
    push_range(&mut fragment, packet, 7, IPV6_HEADER_LEN);
    fragment.push(packet[6]);
    fragment.push(0);
    let more: u16 = if end < length { 1 } else { 0 };
    push_u16(&mut fragment, (start % 65536) as u16 + more);
    push_u32(&mut fragment, identification);
    push_range(&mut fragment, packet, IPV6_HEADER_LEN + start, IPV6_HEADER_LEN + end);
    proof {
        assert(packet@.subrange(40 + start, 40 + end) =~= packet@.subrange(
            40,
            packet@.len() as int,
        ).subrange(start as int, end as int));
        assert(fragment@ =~= ipv6_fragment(packet@, identification, (start as int, end as int)));
    }
    fragment
}

proof fn lemma_ipv6_step(
    packet: Seq<u8>,
    identification: u32,
    per: int,
    offset: int,
    out: Seq<Vec<u8>>,
    fragment: Vec<u8>,
)
    requires
        packet.len() >= 40,
        0 <= offset < packet.len() - 40,
        per > 0,
        fragment@ == ipv6_fragment(
            packet,
            identification,
            (offset, piece_end(offset, packet.len() - 40, per)),
        ),
    ensures
        packet_views(out.push(fragment)) + ipv6_fragments(
            packet,
            identification,
            per,
            piece_end(offset, packet.len() - 40, per),
        ) == packet_views(out) + ipv6_fragments(packet, identification, per, offset),
{
    let end = piece_end(offset, packet.len() - 40, per);
    let rest = ipv6_fragments(packet, identification, per, end);
    let here = ipv6_fragments(packet, identification, per, offset);
    assert(pieces(offset, packet.len() - 40, per) == seq![(offset, end)] + pieces(
        end,
        packet.len() - 40,
        per,
    ));
    assert(here =~= seq![fragment@] + rest);
    assert(packet_views(out.push(fragment)) =~= packet_views(out).push(fragment@));
    assert(packet_views(out).push(fragment@) + rest =~= packet_views(out) + here);
}

/// Cuts one IPv6 packet into fragments that fit the MTU, appending each to `out` and answering how many there
/// were.
pub fn fragment_ipv6(
    packet: &[u8],
    mtu: usize,
    identification: u32,
    out: &mut Vec<Vec<u8>>,
) -> (r: Result<usize, WriterError>)
    ensures
        match ipv6_refusal(packet@, mtu) {
            Some(error) => r == Err::<usize, WriterError>(error) && final(out)@ == old(out)@,
            None => {
                let fragments = ipv6_fragments(
                    packet@,
                    identification,
                    per_fragment(mtu as int, 48)->0,
                    0,
                );
                &&& r == Ok::<usize, WriterError>(fragments.len() as usize)
                &&& fragments.len() <= usize::MAX
                &&& packet_views(final(out)@) == packet_views(old(out)@) + fragments
            },
        },
{
    if packet.len() < IPV6_HEADER_LEN || packet[0] / 16 != 6 {
        return Err(WriterError::Malformed("not an IPv6 packet"));
    }
    let next_header: u8 = packet[6];
    if next_header == 0 || next_header == 43 || next_header == 60 {
        return Err(
            WriterError::Unfragmentable(
                "leading extension header belongs to the unfragmentable part",
            ),
        );
    }
    if next_header == IPV6_FRAGMENT_NEXT_HEADER {
        return Err(WriterError::Unfragmentable("already fragmented"));
    }
    let overhead: usize = IPV6_HEADER_LEN + IPV6_FRAGMENT_HEADER_LEN;
    if mtu < overhead + FRAGMENT_ALIGNMENT {
        return Err(WriterError::TooLarge { size: overhead + FRAGMENT_ALIGNMENT, mtu });
    }
    let per: usize = (mtu - overhead) / FRAGMENT_ALIGNMENT * FRAGMENT_ALIGNMENT;
    let length: usize = packet.len() - IPV6_HEADER_LEN;
    if length == 0 {
        return Err(WriterError::Malformed("IPv6 datagram has no payload"));
    }
    let before: usize = out.len();
    let mut offset: usize = 0;
    let ghost all = ipv6_fragments(packet@, identification, per as int, 0);
    let ghost start = packet_views(out@);
    assert(start + all =~= packet_views(out@) + all);
    while offset < length
        invariant
            offset <= length,
            offset % 8 == 0 || offset == length,
            per % 8 == 0,
            per > 0,
            length == packet@.len() - 40,
            packet@.len() >= 40,
            packet@.len() <= usize::MAX,
            packet_views(out@) + ipv6_fragments(packet@, identification, per as int, offset as int) == start
                + all,
        decreases length - offset,
    {
        let end: usize = if length - offset <= per { length } else { offset + per };
        let fragment = ipv6_fragment_bytes(packet, identification, offset, end);
        proof {
            lemma_ipv6_step(packet@, identification, per as int, offset as int, out@, fragment);
        }
        out.push(fragment);
        offset = end;
    }
    proof {
        assert(packet_views(out@) =~= start + all);
        assert(out@.len() == packet_views(out@).len());
    }
    Ok(out.len() - before)
}

/// The IPv4 header of one fragment: the datagram's, with the piece's place and size.
pub open spec fn ipv4_fragment_fields(fields: Ipv4Fields, len: int, piece: (int, int)) -> Ipv4Fields {
    Ipv4Fields {
        more_fragments: piece.1 < len,
        fragment_offset: ((piece.0 / 8) % 65536) as u16,
        total_len: (20 + piece.1 - piece.0) as u16,
        ..fields
    }
}

/// An IPv4 header without options, with its checksum.
#[verifier::opaque]
pub open spec fn ipv4_header_sealed(fields: Ipv4Fields) -> Seq<u8> {
    ipv4_header_layout(fields, ones_complement(ipv4_checksummed(ipv4_header_layout(fields, 0))))
}

/// A sealed IPv4 header reads back as its fields.
pub proof fn lemma_sealed(fields: Ipv4Fields, rest: Seq<u8>)
    requires
        fields.dscp < 64,
        fields.ecn < 4,
        fields.fragment_offset < 8192,
        fields.header_len == 20,
    ensures
        ({
            let s = ipv4_header_sealed(fields) + rest;
            &&& s.len() == 20 + rest.len()
            &&& s[0] == 0x45
            &&& s[6] < 128
            &&& ipv4_header_fits(s)
            &&& ipv4_fields(s) == fields
            &&& be16(s, 2) == fields.total_len
            &&& s.subrange(20, s.len() as int) == rest
        }),
{
    reveal(ipv4_header_sealed);
    lemma_ipv4_layout(
        fields,
        ones_complement(ipv4_checksummed(ipv4_header_layout(fields, 0))),
        rest,
    );
}

/// The octets of an IPv4 header without options, with its checksum.
pub fn seal_ipv4_header(fields: &Ipv4Fields) -> (r: Vec<u8>)
    requires
        fields.dscp < 64,
        fields.ecn < 4,
        fields.fragment_offset < 8192,
    ensures
        r@ == ipv4_header_sealed(*fields),
        r@.len() == 20,
{
    reveal(ipv4_header_sealed);
    let unsealed = ipv4_header_bytes(fields, 0);
    let sum: u16 = ipv4_header_checksum(unsealed.as_slice());
    ipv4_header_bytes(fields, sum)
}

/// The IPv4 fragments of the pieces from `offset` on, as far as they can be made, and why the rest cannot.
pub open spec fn ipv4_fragments(
    fields: Ipv4Fields,
    payload: Seq<u8>,
    per: int,
    offset: int,
    size: usize,
    mtu: usize,
) -> (Seq<Seq<u8>>, Option<WriterError>)
    decreases payload.len() - offset,
{
    if offset >= payload.len() || per <= 0 {
        (Seq::empty(), None)
    } else {
        let end = piece_end(offset, payload.len() as int, per);
        if (offset / 8) % 65536 > 8191 {
            (Seq::empty(), Some(WriterError::TooLarge { size, mtu }))
        } else if end - offset > 65515 {
            (Seq::empty(), Some(WriterError::Malformed("IPv4 fragment payload does not fit")))
        } else {
            let rest = ipv4_fragments(fields, payload, per, end, size, mtu);
            let fragment = ipv4_header_sealed(
                ipv4_fragment_fields(fields, payload.len() as int, (offset, end)),
            ) + payload.subrange(offset, end);
            (seq![fragment] + rest.0, rest.1)
        }
    }
}

proof fn lemma_ipv4_step(
    fields: Ipv4Fields,
    payload: Seq<u8>,
    per: int,
    offset: int,
    size: usize,
    mtu: usize,
    out: Seq<Vec<u8>>,
    fragment: Vec<u8>,
)
    requires
        0 <= offset < payload.len(),
        per > 0,
        (offset / 8) % 65536 <= 8191,
        ({
            let end = piece_end(offset, payload.len() as int, per);
            &&& end - offset <= 65515
            &&& fragment@ == ipv4_header_sealed(
                ipv4_fragment_fields(fields, payload.len() as int, (offset, end)),
            ) + payload.subrange(offset, end)
        }),
    ensures
        ({
            let end = piece_end(offset, payload.len() as int, per);
            let here = ipv4_fragments(fields, payload, per, offset, size, mtu);
            let rest = ipv4_fragments(fields, payload, per, end, size, mtu);
            &&& packet_views(out.push(fragment)) + rest.0 == packet_views(out) + here.0
            &&& rest.1 == here.1
        }),
{
    let end = piece_end(offset, payload.len() as int, per);
    let here = ipv4_fragments(fields, payload, per, offset, size, mtu);
    let rest = ipv4_fragments(fields, payload, per, end, size, mtu);
    assert(here.0 =~= seq![fragment@] + rest.0);
    assert(packet_views(out.push(fragment)) =~= packet_views(out).push(fragment@));
    assert(packet_views(out).push(fragment@) + rest.0 =~= packet_views(out) + here.0);
}

/// What fragmenting an IPv4 packet is refused with before any fragment is made.
pub open spec fn ipv4_refusal(packet: Seq<u8>, mtu: usize) -> Option<WriterError> {
    if !ipv4_header_fits(packet) {
        Some(WriterError::Malformed("not an IPv4 packet"))
    } else if packet[0] % 16 != 5 {
        Some(WriterError::Unfragmentable("IPv4 options are not copied into fragments"))
    } else if ipv4_fields(packet).dont_fragment {
        Some(WriterError::Unfragmentable("DF is set"))
    } else if ipv4_fields(packet).more_fragments || ipv4_fields(packet).fragment_offset != 0 {
        Some(WriterError::Unfragmentable("already fragmented"))
    } else if per_fragment(mtu as int, 20) is None {
        Some(WriterError::TooLarge { size: 28, mtu })
    } else if packet.len() == 20 {
        Some(WriterError::Malformed("IPv4 datagram has no payload"))
    } else {
        None
    }
}

/// The fragments of a whole IPv4 packet, as far as they can be made, and why the rest cannot.
pub open spec fn ipv4_split(packet: Seq<u8>, mtu: usize) -> (Seq<Seq<u8>>, Option<WriterError>) {
    ipv4_fragments(
        ipv4_fields(packet),
        packet.subrange(20, packet.len() as int),
        per_fragment(mtu as int, 20)->0,
        0,
        packet.len() as usize,
        mtu,
    )
}

/// Cuts one IPv4 packet into fragments that fit the MTU, appending each to `out` and answering how many there
/// were. A failure part-way leaves the fragments before it in `out`.
pub fn fragment_ipv4(
    packet: &[u8],
    mtu: usize,
    out: &mut Vec<Vec<u8>>,
) -> (r: Result<usize, WriterError>)
    ensures
        match ipv4_refusal(packet@, mtu) {
            Some(error) => r == Err::<usize, WriterError>(error) && final(out)@ == old(out)@,
            None => {
                let split = ipv4_split(packet@, mtu);
                &&& r == (match split.1 {
                    Some(error) => Err::<usize, WriterError>(error),
                    None => Ok(split.0.len() as usize),
                })
                &&& split.1 is None ==> split.0.len() <= usize::MAX
                &&& packet_views(final(out)@) == packet_views(old(out)@) + split.0
            },
        },
{
    let fields = match ipv4_header(packet) {
        Some(fields) => fields,
        None => return Err(WriterError::Malformed("not an IPv4 packet")),
    };
    if fields.header_len != IPV4_HEADER_LEN {
        return Err(WriterError::Unfragmentable("IPv4 options are not copied into fragments"));
    }
    if fields.dont_fragment {
        return Err(WriterError::Unfragmentable("DF is set"));
    }
    if fields.more_fragments || fields.fragment_offset != 0 {
        return Err(WriterError::Unfragmentable("already fragmented"));
    }
    if mtu < IPV4_HEADER_LEN + FRAGMENT_ALIGNMENT {
        return Err(WriterError::TooLarge { size: IPV4_HEADER_LEN + FRAGMENT_ALIGNMENT, mtu });
    }
    let per: usize = (mtu - IPV4_HEADER_LEN) / FRAGMENT_ALIGNMENT * FRAGMENT_ALIGNMENT;
    let length: usize = packet.len() - IPV4_HEADER_LEN;
    if length == 0 {
        return Err(WriterError::Malformed("IPv4 datagram has no payload"));
    }
    let before: usize = out.len();
    let mut offset: usize = 0;
    let ghost payload = packet@.subrange(20, packet@.len() as int);
    let ghost split = ipv4_split(packet@, mtu);
    let ghost start = packet_views(out@);
    while offset < length
        invariant
            offset <= length,
            per > 0,
            length == packet@.len() - 20,
            packet@.len() >= 20,
            payload == packet@.subrange(20, packet@.len() as int),
            packet@.len() <= usize::MAX,
            fields.dscp < 64,
            fields.ecn < 4,
            ipv4_refusal(packet@, mtu) is None,
            split == ipv4_split(packet@, mtu),
            start == packet_views(old(out)@),
            ({
                let rest = ipv4_fragments(
                    fields,
                    payload,
                    per as int,
                    offset as int,
                    packet@.len() as usize,
                    mtu,
                );
                &&& packet_views(out@) + rest.0 == start + split.0
                &&& rest.1 == split.1
            }),
        decreases length - offset,
    {
        let end: usize = if length - offset <= per { length } else { offset + per };
        let units: u16 = ((offset / FRAGMENT_ALIGNMENT) % 65536) as u16;
        if units > 8191 {
            assert(packet_views(out@) =~= start + split.0);
            return Err(WriterError::TooLarge { size: packet.len(), mtu });
        }
        if end - offset > 65515 {
            assert(packet_views(out@) =~= start + split.0);
            return Err(WriterError::Malformed("IPv4 fragment payload does not fit"));
        }
        let header = Ipv4Fields {
            more_fragments: end < length,
            fragment_offset: units,
            total_len: (IPV4_HEADER_LEN + (end - offset)) as u16,
            ..fields
        };
        let mut fragment = seal_ipv4_header(&header);
        push_range(&mut fragment, packet, IPV4_HEADER_LEN + offset, IPV4_HEADER_LEN + end);
        proof {
            assert(packet@.subrange(20 + offset, 20 + end) =~= payload.subrange(
                offset as int,
                end as int,
            ));
            let piece = (offset as int, end as int);
            assert(header == ipv4_fragment_fields(fields, payload.len() as int, piece));
            lemma_ipv4_step(
                fields,
                payload,
                per as int,
                offset as int,
                packet@.len() as usize,
                mtu,
                out@,
                fragment,
            );
        }
        out.push(fragment);
        offset = end;
    }
    proof {
        assert(packet_views(out@) =~= start + split.0);
        assert(out@.len() == packet_views(out@).len());
    }
    Ok(out.len() - before)
}

/// What a datagram may be sent as.
#[derive(Debug, Clone, Copy, PartialEq, Eq)]
pub enum Sizing {
    /// Whole, or as IPv6 fragments: it needs no Identification.
    Atomic,
    /// As IPv4 fragments under an issued Identification.
    Fragmentable(Guarded),
    /// Not at all.
    Denied(Denial),
}

/// What the size policy decides by.
#[derive(Debug, Clone, Copy)]
pub struct SizingInput {
    /// The Identification tuple of an IPv4 datagram.
    pub tuple: Option<Tuple>,
    pub oversized: bool,
    pub now: u64,
}

impl SizingInput {
    /// The tuple that an Identification is asked for, where one is.
    pub open spec fn asks(self) -> Option<Tuple> {
        if self.oversized {
            self.tuple
        } else {
            None
        }
    }

    /// The allocator after the size policy.
    pub open spec fn asked(self, state: Issued) -> Issued {
        match self.asks() {
            Some(tuple) => state.after_next(tuple, self.now),
            None => state,
        }
    }

    /// Why the datagram is not sent, where it is not.
    pub open spec fn denial(self, state: Issued) -> Option<Denial> {
        match self.asks() {
            Some(tuple) => state.denial(tuple, self.now),
            None => None,
        }
    }

    /// Whether `guarded` is what the size policy issued: nothing where it was not asked, else the tuple's next
    /// value.
    pub open spec fn issues(self, state: Issued, guarded: Option<Guarded>) -> bool {
        match self.asks() {
            Some(tuple) => guarded matches Some(g) && g.spec_tuple() == tuple && g.value() == nth_value(
                state.current(tuple, self.now).issued,
            ),
            None => guarded is None,
        }
    }
}

/// Spends an Identification only on an oversized IPv4 datagram.
pub fn size_policy(identifications: &mut Ipv4Identifications, input: SizingInput) -> (r: Sizing)
    requires
        old(identifications).wf(),
        old(identifications).countable(),
    ensures
        final(identifications).wf(),
        final(identifications)@ == input.asked(old(identifications)@),
        match r {
            Sizing::Denied(denial) => input.denial(old(identifications)@) == Some(denial),
            Sizing::Atomic => input.asks() is None,
            Sizing::Fragmentable(guarded) => {
                &&& input.asks() is Some
                &&& input.denial(old(identifications)@) is None
                &&& input.issues(old(identifications)@, Some(guarded))
            },
        },
{
    if !input.oversized {
        return Sizing::Atomic;
    }
    match input.tuple {
        Some(tuple) => match identifications.next(tuple, input.now) {
            Ok(guarded) => Sizing::Fragmentable(guarded),
            Err(denial) => Sizing::Denied(denial),
        },
        None => Sizing::Atomic,
    }
}

/// One datagram that was offered, and what the answer was.
pub struct Offer {
    pub packets: Seq<Seq<u8>>,
    /// The value that guards it.
    pub guarded: Option<Guarded>,
    pub taken: bool,
}

/// Where whole datagrams go.
pub trait Sink {
    /// Every datagram offered so far, and what the answer was.
    ///
    /// What stands here is for one of which nothing is proved. One that is proved to keep what is asked of it says
    /// in its own words what it was told.
    open spec fn offered(&self) -> Seq<Offer> {
        Seq::empty()
    }

    /// Takes or refuses one datagram, all its packets or none.
    fn datagram(&mut self, batch: Batch) -> (r: bool)
        ensures
            final(self).offered() == old(self).offered().push(
                Offer { packets: batch.spec_packets(), guarded: batch.spec_guarded(), taken: r },
            ),
    ;
}

/// What became of one datagram.
#[derive(Debug, PartialEq, Eq)]
pub enum Emitted {
    Handed { queued: usize, refused: usize },
    Denied(Denial),
    Unbuildable(WriterError),
}

/// The IPv6 fragment identification after `id`.
pub open spec fn next_fragment_identification(id: u32) -> u32 {
    if id == u32::MAX { 0 } else { (id + 1) as u32 }
}

/// Whether a packet is cut as IPv6.
pub open spec fn cut_as_ipv6(packet: Seq<u8>, mtu: usize) -> bool {
    packet.len() > mtu && packet[0] / 16 == 6
}

/// The packets that a built datagram is written as, `id` being the IPv6 fragment identification.
pub open spec fn packetized(packet: Seq<u8>, mtu: usize, id: u32) -> Result<Seq<Seq<u8>>, WriterError> {
    if packet.len() <= mtu {
        Ok(seq![packet])
    } else if packet[0] / 16 == 6 {
        match ipv6_refusal(packet, mtu) {
            Some(error) => Err(error),
            None => Ok(ipv6_fragments(packet, id, per_fragment(mtu as int, 48)->0, 0)),
        }
    } else {
        match ipv4_refusal(packet, mtu) {
            Some(error) => Err(error),
            None => match ipv4_split(packet, mtu).1 {
                Some(error) => Err(error),
                None => Ok(ipv4_split(packet, mtu).0),
            },
        }
    }
}

proof fn lemma_ipv4_count(fields: Ipv4Fields, payload: Seq<u8>, per: int, offset: int, size: usize, mtu: usize)
    requires
        0 <= offset,
        per >= 8,
    ensures
        ipv4_fragments(fields, payload, per, offset, size, mtu).0.len() * 8 <= payload.len() - offset + 8
            || ipv4_fragments(fields, payload, per, offset, size, mtu).0.len() == 0,
    decreases payload.len() - offset,
{
    if offset < payload.len() {
        let end = piece_end(offset, payload.len() as int, per);
        lemma_ipv4_count(fields, payload, per, end, size, mtu);
    }
}

/// How many packets one datagram is cut into at most.
pub const MOST_PACKETS: usize = usize::MAX / 8 + 2;

/// Turns a built datagram into packets that fit the MTU.
pub fn packetize(packet: Vec<u8>, mtu: usize, fragment_identification: &mut u32) -> (r: Result<
    Vec<Vec<u8>>,
    WriterError,
>)
    ensures
        *final(fragment_identification) == (if cut_as_ipv6(packet@, mtu) {
            next_fragment_identification(*old(fragment_identification))
        } else {
            *old(fragment_identification)
        }),
        match r {
            Ok(packets) => {
                &&& packetized(packet@, mtu, *final(fragment_identification)) == Ok::<
                    Seq<Seq<u8>>,
                    WriterError,
                >(packet_views(packets@))
                &&& 0 < packets@.len() <= MOST_PACKETS
            },
            Err(error) => packetized(packet@, mtu, *final(fragment_identification)) == Err::<
                Seq<Seq<u8>>,
                WriterError,
            >(error),
        },
{
    let mut packets: Vec<Vec<u8>> = Vec::new();
    let size: usize = packet.len();
    if size <= mtu {
        packets.push(packet);
        assert(packet_views(packets@) =~= seq![packet@]);
        return Ok(packets);
    }
    let fragmented = if packet[0] / 16 == 6 {
        *fragment_identification = fragment_identification.wrapping_add(1);
        fragment_ipv6(packet.as_slice(), mtu, *fragment_identification, &mut packets)
    } else {
        fragment_ipv4(packet.as_slice(), mtu, &mut packets)
    };
    match fragmented {
        Ok(_) => {
            proof {
                if packet@[0] / 16 == 6 {
                    lemma_pieces(0, packet@.len() - 40, per_fragment(mtu as int, 48)->0);
                } else {
                    lemma_ipv4_count(
                        ipv4_fields(packet@),
                        packet@.subrange(20, packet@.len() as int),
                        per_fragment(mtu as int, 20)->0,
                        0,
                        packet@.len() as usize,
                        mtu,
                    );
                }
                assert(packet_views(Seq::<Vec<u8>>::empty()) =~= Seq::empty());
                assert(packet_views(packets@).len() == packets@.len());
            }
            Ok(packets)
        },
        Err(error) => Err(error),
    }
}

/// The allocator after the value of a datagram that reached nothing was given back.
pub open spec fn given_back(state: Issued, guarded: Option<Guarded>) -> Issued {
    match guarded {
        Some(g) => state.after_unissued(g.spec_tuple(), g.value()),
        None => state,
    }
}

/// The allocator after the writer took a datagram.
pub open spec fn taken(state: Issued, guarded: Option<Guarded>) -> Issued {
    match guarded {
        Some(g) => state.after_accepted(g.spec_tuple()),
        None => state,
    }
}

/// Settles one offered datagram by whether it was taken, all of its packets or none.
pub fn settle(
    identifications: &mut Ipv4Identifications,
    guarded: Option<Guarded>,
    count: usize,
    accepted: bool,
) -> (r: Emitted)
    requires
        old(identifications).wf(),
        old(identifications).countable(),
    ensures
        final(identifications).wf(),
        accepted ==> r == (Emitted::Handed { queued: count, refused: 0 })
            && final(identifications)@ == taken(old(identifications)@, guarded),
        !accepted ==> r == (Emitted::Handed { queued: 0, refused: count })
            && final(identifications)@ == given_back(old(identifications)@, guarded),
{
    if accepted {
        if let Some(guarded) = guarded {
            identifications.accepted(guarded);
        }
        Emitted::Handed { queued: count, refused: 0 }
    } else {
        unissued(identifications, guarded, Emitted::Handed { queued: 0, refused: count })
    }
}

/// Gives the value of a datagram that reached nothing back.
pub fn unissued(
    identifications: &mut Ipv4Identifications,
    guarded: Option<Guarded>,
    emitted: Emitted,
) -> (r: Emitted)
    requires
        old(identifications).wf(),
    ensures
        final(identifications).wf(),
        final(identifications)@ == given_back(old(identifications)@, guarded),
        r == emitted,
{
    if let Some(guarded) = guarded {
        identifications.unissued(guarded);
    }
    emitted
}

/// What one emission did, `built` being what the builder made under the value it was given. A datagram that was built
/// and cut is offered once, whole, and the answer decides: it is queued and its value is taken, or it is refused and
/// its value is given back.
pub open spec fn emission(
    emitted: Emitted,
    built: Result<Vec<u8>, WriterError>,
    guarded: Option<Guarded>,
    mtu: usize,
    state: Issued,
    after: Issued,
    id: u32,
    id_after: u32,
    offered: Seq<Offer>,
    offered_after: Seq<Offer>,
) -> bool {
    &&& id_after == (if built is Ok && cut_as_ipv6(built->Ok_0@, mtu) {
        next_fragment_identification(id)
    } else {
        id
    })
    &&& match built {
        Err(error) => {
            &&& emitted == Emitted::Unbuildable(error)
            &&& after == given_back(state, guarded)
            &&& offered_after == offered
        },
        Ok(packet) => match packetized(packet@, mtu, id_after) {
            Err(error) => {
                &&& emitted == Emitted::Unbuildable(error)
                &&& after == given_back(state, guarded)
                &&& offered_after == offered
            },
            Ok(packets) => {
                &&& 0 < packets.len() <= MOST_PACKETS
                &&& {
                    ||| offered_after == offered.push(Offer { packets, guarded, taken: true }) && emitted == (
                    Emitted::Handed { queued: packets.len() as usize, refused: 0 }) && after == taken(
                        state,
                        guarded,
                    )
                    ||| offered_after == offered.push(Offer { packets, guarded, taken: false }) && emitted == (
                    Emitted::Handed { queued: 0, refused: packets.len() as usize }) && after == given_back(
                        state,
                        guarded,
                    )
                }
            },
        },
    }
}

/// Sizes, builds, cuts and offers one datagram. A denied datagram is never built; one that reached nothing
/// gives its value back.
pub fn emit<S: Sink, F: FnOnce(Option<u16>) -> Result<Vec<u8>, WriterError>>(
    identifications: &mut Ipv4Identifications,
    sizing: SizingInput,
    mtu: usize,
    fragment_identification: &mut u32,
    build: F,
    sink: &mut S,
) -> (r: Emitted)
    requires
        old(identifications).wf(),
        old(identifications).countable(),
        forall|value: Option<u16>| #[trigger] build.requires((value,)),
    ensures
        final(identifications).wf(),
        match sizing.denial(old(identifications)@) {
            Some(denial) => {
                &&& r == Emitted::Denied(denial)
                &&& final(identifications)@ == sizing.asked(old(identifications)@)
                &&& *final(fragment_identification) == *old(fragment_identification)
                &&& final(sink).offered() == old(sink).offered()
            },
            None => exists|guarded: Option<Guarded>, built: Result<Vec<u8>, WriterError>|
                {
                    &&& sizing.issues(old(identifications)@, guarded)
                    &&& #[trigger] build.ensures((value_of(guarded),), built)
                    &&& emission(
                        r,
                        built,
                        guarded,
                        mtu,
                        sizing.asked(old(identifications)@),
                        final(identifications)@,
                        *old(fragment_identification),
                        *final(fragment_identification),
                        old(sink).offered(),
                        final(sink).offered(),
                    )
                },
        },
{
    let guarded = match size_policy(identifications, sizing) {
        Sizing::Atomic => None,
        Sizing::Fragmentable(guarded) => Some(guarded),
        Sizing::Denied(denial) => return Emitted::Denied(denial),
    };
    let value = match guarded {
        Some(guarded) => Some(guarded.identification()),
        None => None,
    };
    assert(value == value_of(guarded));
    assert(sizing.issues(old(identifications)@, guarded));
    let built = build(value);
    let ghost made = built;
    match built {
        Err(error) => {
            let r = unissued(identifications, guarded, Emitted::Unbuildable(error));
            assert(build.ensures((value_of(guarded),), made));
            r
        },
        Ok(packet) => match packetize(packet, mtu, fragment_identification) {
            Err(error) => {
                let r = unissued(identifications, guarded, Emitted::Unbuildable(error));
                assert(build.ensures((value_of(guarded),), made));
                r
            },
            Ok(packets) => {
                let count: usize = packets.len();
                let accepted = sink.datagram(Batch::new(packets, guarded));
                let r = settle(identifications, guarded, count, accepted);
                assert(build.ensures((value_of(guarded),), made));
                r
            },
        },
    }
}

/// The value that a guarded datagram is built under.
pub open spec fn value_of(guarded: Option<Guarded>) -> Option<u16> {
    match guarded {
        Some(g) => Some(g.value()),
        None => None,
    }
}

/// Who one datagram is between, and how large it will be.
#[derive(Debug, Clone, Copy)]
pub struct Addressed {
    pub source: IpAddr,
    pub destination: IpAddr,
    pub protocol: u8,
    pub size: usize,
}

impl Addressed {
    /// The Identification tuple of an IPv4 datagram.
    pub open spec fn tuple(self) -> Option<Tuple> {
        match (self.source, self.destination) {
            (IpAddr::V4(source), IpAddr::V4(destination)) => Some((source, destination, self.protocol)),
            _ => None,
        }
    }
}

/// Whether the last of what was offered since `before` was taken.
pub open spec fn took(before: Seq<Offer>, after: Seq<Offer>) -> bool {
    after.len() > before.len() && after.last().taken
}

/// Who learns that a datagram could not be built.
pub trait Reporter {
    /// Every failure reported so far.
    ///
    /// What stands here is for one of which nothing is proved. One that is proved to keep what is asked of it says
    /// in its own words what it was told.
    open spec fn reports(&self) -> Seq<(IpAddr, IpAddr, WriterError)> {
        Seq::empty()
    }

    fn unbuildable(&mut self, source: IpAddr, destination: IpAddr, error: &WriterError)
        ensures
            final(self).reports() == old(self).reports().push((source, destination, *error)),
    ;
}

/// What an emission means to the counters.
#[derive(Debug, PartialEq, Eq)]
pub enum Outcome {
    Handed { queued: usize, refused: usize },
    Counted,
    Reported(WriterError),
}

/// What an emission means to the counters.
pub open spec fn outcome_of(emitted: Emitted) -> Outcome {
    match emitted {
        Emitted::Handed { queued, refused } => Outcome::Handed { queued, refused },
        Emitted::Denied(_) => Outcome::Counted,
        Emitted::Unbuildable(e) => Outcome::Reported(e),
    }
}

/// A denial is counted; only a packetization failure is reported.
pub fn outcome(emitted: Emitted) -> (r: Outcome)
    ensures
        r == outcome_of(emitted),
{
    match emitted {
        Emitted::Handed { queued, refused } => Outcome::Handed { queued, refused },
        Emitted::Denied(_) => Outcome::Counted,
        Emitted::Unbuildable(e) => Outcome::Reported(e),
    }
}

/// An emitter's state.
pub struct EmitterState {
    pub mtu: usize,
    pub identifications: Issued,
    pub fragment_identification: u32,
    pub queued: u64,
    pub handoff_refused: u64,
    pub unbuildable: u64,
    pub denied: u64,
}

impl EmitterState {
    /// Whether the counters can count the packets of one more datagram.
    pub open spec fn countable(self) -> bool {
        &&& self.queued <= u64::MAX - MOST_PACKETS
        &&& self.handoff_refused <= u64::MAX - MOST_PACKETS
        &&& self.unbuildable < u64::MAX
        &&& self.denied < u64::MAX
    }

    /// The counters after an emission.
    pub open spec fn counted(self, emitted: Emitted) -> EmitterState {
        match outcome_of(emitted) {
            Outcome::Handed { queued, refused } => EmitterState {
                queued: (self.queued + queued) as u64,
                handoff_refused: (self.handoff_refused + refused) as u64,
                ..self
            },
            Outcome::Counted => EmitterState { denied: (self.denied + 1) as u64, ..self },
            Outcome::Reported(_) => EmitterState { unbuildable: (self.unbuildable + 1) as u64, ..self },
        }
    }
}

/// Owns sizing, Identification allocation and handoff counters as one decision.
pub struct Emitter {
    mtu: usize,
    identifications: Ipv4Identifications,
    fragment_identification: u32,
    queued: u64,
    handoff_refused: u64,
    unbuildable: u64,
    denied: u64,
}

impl View for Emitter {
    type V = EmitterState;

    closed spec fn view(&self) -> EmitterState {
        EmitterState {
            mtu: self.mtu,
            identifications: self.identifications@,
            fragment_identification: self.fragment_identification,
            queued: self.queued,
            handoff_refused: self.handoff_refused,
            unbuildable: self.unbuildable,
            denied: self.denied,
        }
    }
}

impl Emitter {
    pub closed spec fn wf(&self) -> bool {
        self.identifications.wf()
    }

    /// Whether every counter can count what one emission adds.
    pub open spec fn countable(&self) -> bool {
        self@.countable() && self@.identifications.countable()
    }

    /// Whether the counters can count one more datagram.
    pub fn can_count(&self) -> (r: bool)
        requires
            self.wf(),
        ensures
            r == self.countable(),
    {
        let most: u64 = u64::MAX - MOST_PACKETS as u64;
        self.queued <= most && self.handoff_refused <= most && self.unbuildable < u64::MAX && self.denied < u64::MAX
            && self.identifications.can_count()
    }

    /// An emitter for one interface; `opened` starts the Identification quarantine.
    pub fn new(mtu: usize, opened: u64) -> (r: Self)
        ensures
            r.wf(),
            r.countable(),
            r@ == (EmitterState {
                mtu,
                identifications: Issued {
                    opened,
                    cycles: Map::empty(),
                    outstanding: 0,
                    exhausted: 0,
                },
                fragment_identification: 0,
                queued: 0,
                handoff_refused: 0,
                unbuildable: 0,
                denied: 0,
            }),
    {
        Emitter {
            mtu,
            identifications: Ipv4Identifications::new(opened),
            fragment_identification: 0,
            queued: 0,
            handoff_refused: 0,
            unbuildable: 0,
            denied: 0,
        }
    }

    /// The interface's MTU.
    pub fn mtu(&self) -> (r: usize)
        ensures
            r == self@.mtu,
    {
        self.mtu
    }

    /// How many packets the queue took.
    pub fn queued(&self) -> (r: u64)
        ensures
            r == self@.queued,
    {
        self.queued
    }

    /// How many packets the queue refused.
    pub fn handoff_refused(&self) -> (r: u64)
        ensures
            r == self@.handoff_refused,
    {
        self.handoff_refused
    }

    /// How many datagrams could not be built.
    pub fn unbuildable(&self) -> (r: u64)
        ensures
            r == self@.unbuildable,
    {
        self.unbuildable
    }

    /// How many datagrams were denied an Identification.
    pub fn denied(&self) -> (r: u64)
        ensures
            r == self@.denied,
    {
        self.denied
    }

    /// The allocator.
    pub fn identifications(&self) -> (r: &Ipv4Identifications)
        requires
            self.wf(),
        ensures
            r.wf(),
            r@ == self@.identifications,
    {
        &self.identifications
    }

    /// Settles one guarded datagram.
    pub fn terminal(&mut self, terminal: Terminal)
        requires
            old(self).wf(),
        ensures
            final(self).wf(),
            final(self)@ == (EmitterState {
                identifications: old(self)@.identifications.after_terminal(
                    terminal.spec_guarded().spec_tuple(),
                    terminal.spec_written(),
                ),
                ..old(self)@
            }),
    {
        self.identifications.terminal(terminal);
    }

    /// Counts one already-formed packet that was offered.
    pub fn handed(&mut self, accepted: bool) -> (r: bool)
        requires
            accepted ==> old(self)@.queued < u64::MAX,
            !accepted ==> old(self)@.handoff_refused < u64::MAX,
        ensures
            r == accepted,
            final(self).wf() == old(self).wf(),
            final(self)@ == (if accepted {
                EmitterState { queued: (old(self)@.queued + 1) as u64, ..old(self)@ }
            } else {
                EmitterState { handoff_refused: (old(self)@.handoff_refused + 1) as u64, ..old(self)@ }
            }),
    {
        if accepted {
            self.queued = self.queued + 1;
        } else {
            self.handoff_refused = self.handoff_refused + 1;
        }
        accepted
    }

    /// Emits one datagram and answers whether the queue took it. A build failure is reported.
    pub fn emit<S: Sink, R: Reporter, F: FnOnce(Option<u16>) -> Result<Vec<u8>, WriterError>>(
        &mut self,
        now: u64,
        addressed: Addressed,
        build: F,
        sink: &mut S,
        reporter: &mut R,
    ) -> (r: bool)
        requires
            old(self).wf(),
            old(self).countable(),
            forall|value: Option<u16>| #[trigger] build.requires((value,)),
        ensures
            final(self).wf(),
            ({
                let before = old(self)@;
                let after = final(self)@;
                let sizing = SizingInput {
                    tuple: addressed.tuple(),
                    oversized: addressed.size > before.mtu,
                    now,
                };
                match sizing.denial(before.identifications) {
                    Some(denial) => {
                        &&& !r
                        &&& after == (EmitterState {
                            identifications: sizing.asked(before.identifications),
                            ..before.counted(Emitted::Denied(denial))
                        })
                        &&& final(sink).offered() == old(sink).offered()
                        &&& final(reporter).reports() == old(reporter).reports()
                    },
                    None => exists|
                        guarded: Option<Guarded>,
                        built: Result<Vec<u8>, WriterError>,
                        emitted: Emitted,
                    |
                        {
                            &&& sizing.issues(before.identifications, guarded)
                            &&& #[trigger] build.ensures((value_of(guarded),), built)
                            &&& #[trigger] emission(
                                emitted,
                                built,
                                guarded,
                                before.mtu,
                                sizing.asked(before.identifications),
                                after.identifications,
                                before.fragment_identification,
                                after.fragment_identification,
                                old(sink).offered(),
                                final(sink).offered(),
                            )
                            &&& after == (EmitterState {
                                identifications: after.identifications,
                                fragment_identification: after.fragment_identification,
                                ..before.counted(emitted)
                            })
                            &&& r == (emitted matches Emitted::Handed { queued, .. } && queued > 0)
                            &&& r == took(old(sink).offered(), final(sink).offered())
                            &&& final(reporter).reports() == (match emitted {
                                Emitted::Unbuildable(error) => old(reporter).reports().push(
                                    (addressed.source, addressed.destination, error),
                                ),
                                _ => old(reporter).reports(),
                            })
                        },
                }
            }),
    {
        let tuple = match (addressed.source, addressed.destination) {
            (IpAddr::V4(source), IpAddr::V4(destination)) => Some(
                (source, destination, addressed.protocol),
            ),
            _ => None,
        };
        let sizing = SizingInput { tuple, oversized: addressed.size > self.mtu, now };
        let emitted = emit(
            &mut self.identifications,
            sizing,
            self.mtu,
            &mut self.fragment_identification,
            build,
            sink,
        );
        let ghost what = emitted;
        let ghost before = old(self)@;
        let ghost issued = self.identifications@;
        let ghost id = self.fragment_identification;
        let r = match outcome(emitted) {
            Outcome::Handed { queued, refused } => {
                self.queued = self.queued + queued as u64;
                self.handoff_refused = self.handoff_refused + refused as u64;
                queued > 0
            },
            Outcome::Counted => {
                self.denied = self.denied + 1;
                false
            },
            Outcome::Reported(error) => {
                self.unbuildable = self.unbuildable + 1;
                reporter.unbuildable(addressed.source, addressed.destination, &error);
                false
            },
        };
        proof {
            let after = self@;
            assert(after == (EmitterState {
                identifications: issued,
                fragment_identification: id,
                ..before.counted(what)
            }));
            if sizing.denial(before.identifications) is None {
                let (guarded, built) = choose|
                    guarded: Option<Guarded>,
                    built: Result<Vec<u8>, WriterError>,
                |
                    {
                        &&& sizing.issues(before.identifications, guarded)
                        &&& #[trigger] build.ensures((value_of(guarded),), built)
                        &&& emission(
                            what,
                            built,
                            guarded,
                            before.mtu,
                            sizing.asked(before.identifications),
                            issued,
                            before.fragment_identification,
                            id,
                            old(sink).offered(),
                            sink.offered(),
                        )
                    };
                assert(emission(
                    what,
                    built,
                    guarded,
                    before.mtu,
                    sizing.asked(before.identifications),
                    after.identifications,
                    before.fragment_identification,
                    after.fragment_identification,
                    old(sink).offered(),
                    sink.offered(),
                ));
            }
        }
        r
    }
}

/// A datagram that reached nothing, since it could not be built or cut or was refused, leaves the allocator ready to
/// issue its value again, and no more datagrams outstanding than before. One that could not be built was not offered.
pub proof fn law_undelivered_value_is_reused(
    state: Issued,
    sizing: SizingInput,
    guarded: Option<Guarded>,
    built: Result<Vec<u8>, WriterError>,
    emitted: Emitted,
    mtu: usize,
    after: Issued,
    id: u32,
    id_after: u32,
    offered: Seq<Offer>,
    offered_after: Seq<Offer>,
)
    requires
        sizing.denial(state) is None,
        sizing.issues(state, guarded),
        emission(
            emitted,
            built,
            guarded,
            mtu,
            sizing.asked(state),
            after,
            id,
            id_after,
            offered,
            offered_after,
        ),
        !took(offered, offered_after),
    ensures
        sizing.denial(after) is None,
        sizing.issues(after, guarded),
        after.outstanding == state.outstanding,
        emitted is Unbuildable ==> offered_after == offered,
        emitted !is Unbuildable ==> offered_after.len() == offered.len() + 1,
        emitted matches Emitted::Handed { queued, refused } ==> queued == 0 && refused > 0,
{
}

/// A fragment has as many octets of payload as fit behind its headers, in whole eights. Where not eight of them fit
/// there can be no fragment.
pub proof fn law_fragments_are_whole_eights(mtu: int, overhead: int)
    ensures
        per_fragment(mtu, overhead) is None <==> mtu < overhead + 8,
        per_fragment(mtu, overhead) is Some ==> {
            let per = per_fragment(mtu, overhead)->0;
            &&& per % 8 == 0
            &&& per >= 8
            &&& overhead + per <= mtu < overhead + per + 8
        },
{
}

proof fn lemma_piece(offset: int, len: int, per: int, k: int)
    requires
        per > 0,
        0 <= k,
    ensures
        k < pieces(offset, len, per).len() <==> offset + k * per < len,
        k < pieces(offset, len, per).len() ==> pieces(offset, len, per)[k].0 == offset + k * per,
        k < pieces(offset, len, per).len() ==> pieces(offset, len, per)[k].1 == if offset + k * per + per < len {
            offset + k * per + per
        } else {
            len
        },
    decreases k,
{
    assert(0 * per == 0);
    if k > 0 {
        assert(k * per == (k - 1) * per + per) by (nonlinear_arith);
        assert((k - 1) * per >= 0) by (nonlinear_arith)
            requires
                k > 0,
                per > 0,
        ;
        if offset < len {
            let end = piece_end(offset, len, per);
            lemma_piece(end, len, per, k - 1);
            assert(pieces(offset, len, per) =~= seq![(offset, end)] + pieces(end, len, per));
        }
    }
}

/// The pieces of a payload follow one another without a gap and without a piece twice: the `k`th begins `k` times a
/// fragment's worth from the start, each but the last is a whole fragment's worth, and the last ends with the payload.
pub proof fn law_pieces_tile_the_payload(len: int, per: int, k: int)
    requires
        per > 0,
        0 <= k,
    ensures
        k < pieces(0, len, per).len() <==> k * per < len,
        k < pieces(0, len, per).len() ==> pieces(0, len, per)[k].0 == k * per,
        k + 1 < pieces(0, len, per).len() ==> pieces(0, len, per)[k].1 == (k + 1) * per,
        k + 1 == pieces(0, len, per).len() ==> pieces(0, len, per)[k].1 == len,
{
    lemma_piece(0, len, per, k);
    lemma_piece(0, len, per, k + 1);
    assert((k + 1) * per == k * per + per) by (nonlinear_arith);
}

/// An IPv6 fragment has the packet's own header but for its length, and says that a fragment follows. Behind it stand
/// what followed in the packet, where its octets belong, whether more come, and the identification, and then just its
/// octets.
pub proof fn law_what_an_ipv6_fragment_says(packet: Seq<u8>, identification: u32, piece: (int, int))
    requires
        packet.len() >= 40,
        0 <= piece.0 < piece.1 <= packet.len() - 40,
        piece.0 % 8 == 0,
        piece.0 <= 65_528,
        piece.1 - piece.0 <= 65_527,
    ensures
        ({
            let f = ipv6_fragment(packet, identification, piece);
            &&& f.len() == 48 + (piece.1 - piece.0)
            &&& f.subrange(0, 4) == packet.subrange(0, 4)
            &&& be16(f, 4) == f.len() - 40
            &&& f[6] == 44
            &&& f.subrange(7, 40) == packet.subrange(7, 40)
            &&& f[40] == packet[6]
            &&& f[41] == 0
            &&& be16(f, 42) == piece.0 + if piece.1 < packet.len() - 40 {
                1int
            } else {
                0
            }
            &&& be32(f, 44) == identification
            &&& f.subrange(48, f.len() as int) == packet.subrange(40 + piece.0, 40 + piece.1)
        }),
{
    reveal(ipv6_fragment);
    let f = ipv6_fragment(packet, identification, piece);
    let n = piece.1 - piece.0;
    let flags = piece.0 + if piece.1 < packet.len() - 40 {
        1int
    } else {
        0
    };
    assert(f.subrange(0, 4) =~= packet.subrange(0, 4));
    assert(f.subrange(4, 6) =~= oct2(8 + n));
    law_read_back_u16(f, 4, 8 + n);
    assert(f.subrange(7, 40) =~= packet.subrange(7, 40));
    assert(f.subrange(42, 44) =~= oct2(flags));
    law_read_back_u16(f, 42, flags);
    assert(f.subrange(44, 48) =~= oct4(identification as int));
    law_read_back_u32(f, 44, identification as int);
    assert(f.subrange(48, f.len() as int) =~= packet.subrange(40 + piece.0, 40 + piece.1));
}

/// The fragments of an IPv6 packet are those of its payload's pieces, in their order.
pub proof fn law_an_ipv6_packet_is_cut_into_its_pieces(packet: Seq<u8>, identification: u32, per: int, k: int)
    requires
        packet.len() >= 40,
        per > 0,
        0 <= k,
    ensures
        ({
            let all = ipv6_fragments(packet, identification, per, 0);
            &&& k < all.len() <==> k * per < packet.len() - 40
            &&& k < all.len() ==> all[k] == ipv6_fragment(
                packet,
                identification,
                (
                    k * per,
                    if k * per + per < packet.len() - 40 {
                        k * per + per
                    } else {
                        packet.len() - 40
                    },
                ),
            )
        }),
{
    lemma_piece(0, packet.len() - 40, per, k);
}

proof fn lemma_ipv4_pieces(
    fields: Ipv4Fields,
    payload: Seq<u8>,
    per: int,
    offset: int,
    size: usize,
    mtu: usize,
    k: int,
)
    requires
        per > 0,
        0 <= offset,
        0 <= k,
        ipv4_fragments(fields, payload, per, offset, size, mtu).1 is None,
    ensures
        ({
            let all = ipv4_fragments(fields, payload, per, offset, size, mtu).0;
            let cut = pieces(offset, payload.len() as int, per);
            &&& all.len() == cut.len()
            &&& k < all.len() ==> all[k] == ipv4_header_sealed(
                ipv4_fragment_fields(fields, payload.len() as int, cut[k]),
            ) + payload.subrange(cut[k].0, cut[k].1)
        }),
    decreases payload.len() - offset,
{
    if offset < payload.len() {
        let end = piece_end(offset, payload.len() as int, per);
        let all = ipv4_fragments(fields, payload, per, offset, size, mtu).0;
        let cut = pieces(offset, payload.len() as int, per);
        lemma_ipv4_pieces(fields, payload, per, end, size, mtu, if k > 0 {
            k - 1
        } else {
            0
        });
        assert(cut =~= seq![(offset, end)] + pieces(end, payload.len() as int, per));
        if k == 0 {
            assert(cut[0] == (offset, end));
        } else if k < all.len() {
            assert(cut[k] == pieces(end, payload.len() as int, per)[k - 1]);
            assert(all[k] == ipv4_fragments(fields, payload, per, end, size, mtu).0[k - 1]);
        }
    }
}

/// The fragments of an IPv4 packet are those of its payload's pieces, in their order. Each says where its octets belong
/// and whether more come, is as long as it says, has a header checksum of its own, and keeps everything else of the
/// packet's header.
pub proof fn law_what_an_ipv4_fragment_says(
    fields: Ipv4Fields,
    payload: Seq<u8>,
    per: int,
    size: usize,
    mtu: usize,
    k: int,
)
    requires
        per > 0,
        per % 8 == 0,
        0 <= k,
        fields.header_len == 20,
        fields.dscp < 64,
        fields.ecn < 4,
        payload.len() <= 65_515,
    ensures
        ({
            let r = ipv4_fragments(fields, payload, per, 0, size, mtu);
            let start = k * per;
            let end = if start + per < payload.len() {
                start + per
            } else {
                payload.len() as int
            };
            &&& r.1 is None
            &&& k < r.0.len() <==> start < payload.len()
            &&& k < r.0.len() ==> {
                let f = r.0[k];
                let h = ipv4_fields(f);
                &&& f.len() == 20 + (end - start)
                &&& f.subrange(20, f.len() as int) == payload.subrange(start, end)
                &&& h.fragment_offset * 8 == start
                &&& h.more_fragments <==> end < payload.len()
                &&& h.total_len == f.len()
                &&& h.header_len == 20
                &&& h.identification == fields.identification
                &&& h.dont_fragment == fields.dont_fragment
                &&& h.time_to_live == fields.time_to_live
                &&& h.protocol == fields.protocol
                &&& h.source == fields.source
                &&& h.destination == fields.destination
                &&& h.dscp == fields.dscp
                &&& h.ecn == fields.ecn
                &&& be16(f, 10) == ones_complement(ipv4_checksummed(f))
            }
        }),
{
    lemma_ipv4_whole(fields, payload, per, 0, size, mtu);
    lemma_ipv4_pieces(fields, payload, per, 0, size, mtu, k);
    lemma_piece(0, payload.len() as int, per, k);
    let r = ipv4_fragments(fields, payload, per, 0, size, mtu);
    if k < r.0.len() {
        let piece = pieces(0, payload.len() as int, per)[k];
        assert((k * per) % 8 == 0) by (nonlinear_arith)
            requires
                per % 8 == 0,
                k >= 0,
        {
            assert(k * per == 8 * (k * (per / 8))) by (nonlinear_arith)
                requires
                    per % 8 == 0,
            ;
        }
        assert(k * per >= 0) by (nonlinear_arith)
            requires
                k >= 0,
                per > 0,
        ;
        let cut = ipv4_fragment_fields(fields, payload.len() as int, piece);
        lemma_sealed(cut, payload.subrange(piece.0, piece.1));
        lemma_sealed_checksum(cut, payload.subrange(piece.0, piece.1));
    }
}

proof fn lemma_ipv4_whole(fields: Ipv4Fields, payload: Seq<u8>, per: int, offset: int, size: usize, mtu: usize)
    requires
        per > 0,
        0 <= offset,
        payload.len() <= 65_515,
    ensures
        ipv4_fragments(fields, payload, per, offset, size, mtu).1 is None,
    decreases payload.len() - offset,
{
    if offset < payload.len() {
        lemma_ipv4_whole(fields, payload, per, piece_end(offset, payload.len() as int, per), size, mtu);
    }
}

proof fn lemma_sealed_checksum(fields: Ipv4Fields, rest: Seq<u8>)
    requires
        fields.dscp < 64,
        fields.ecn < 4,
        fields.fragment_offset < 8192,
        fields.header_len == 20,
    ensures
        ({
            let s = ipv4_header_sealed(fields) + rest;
            be16(s, 10) == ones_complement(ipv4_checksummed(s))
        }),
{
    reveal(ipv4_header_sealed);
    let s = ipv4_header_sealed(fields) + rest;
    let bare = ipv4_header_layout(fields, 0);
    let sum = ones_complement(ipv4_checksummed(bare));
    lemma_ipv4_layout(fields, sum, rest);
    lemma_ipv4_layout(fields, 0, Seq::empty());
    assert(bare + Seq::<u8>::empty() =~= bare);
    assert(s.subrange(10, 12) =~= oct2(sum as int));
    law_read_back_u16(s, 10, sum as int);
    assert forall|i: int| 0 <= i < 20 && i != 10 && i != 11 implies #[trigger] bare[i] == s[i] by {}
    assert(ipv4_checksummed(s) =~= ipv4_checksummed(bare));
}

/// A header that is sealed carries the checksum that belongs to it: with it the header sums to a multiple of 65535.
pub proof fn law_a_sealed_header_checks(fields: Ipv4Fields, rest: Seq<u8>)
    requires
        fields.dscp < 64,
        fields.ecn < 4,
        fields.fragment_offset < 8192,
        fields.header_len == 20,
    ensures
        ({
            let s = ipv4_header_sealed(fields) + rest;
            &&& ipv4_fields(s) == fields
            &&& s.subrange(20, s.len() as int) == rest
            &&& (word_sum(ipv4_checksummed(s)) + be16(s, 10)) % 65535 == 0
        }),
{
    lemma_sealed(fields, rest);
    lemma_sealed_checksum(fields, rest);
    law_a_checksum_makes_up_for_its_octets(ipv4_checksummed(ipv4_header_sealed(fields) + rest));
}

/// Which IPv6 packets can be cut: whole ones with a payload and room for eight octets of it in a fragment, whose
/// payload begins with nothing that every fragment would have to repeat and is no fragment itself.
pub proof fn law_which_ipv6_packets_can_be_cut(packet: Seq<u8>, mtu: usize)
    ensures
        ipv6_refusal(packet, mtu) is None <==> packet.len() > 40 && 0x60 <= packet[0] <= 0x6f && packet[6] != 0
            && packet[6] != 43 && packet[6] != 44 && packet[6] != 60 && mtu >= 56,
        packet.len() >= 40 && 0x60 <= packet[0] <= 0x6f && (packet[6] == 0 || packet[6] == 43 || packet[6] == 44
            || packet[6] == 60) ==> ipv6_refusal(packet, mtu) is Some && ipv6_refusal(packet, mtu)->0 is Unfragmentable,
        packet.len() > 40 && 0x60 <= packet[0] <= 0x6f && packet[6] == 17 && mtu < 56 ==> ipv6_refusal(packet, mtu)
            == Some(WriterError::TooLarge { size: 56, mtu }),
{
}

/// Which IPv4 packets can be cut: those with a plain header and a payload that may be cut and have not been yet, with
/// room for eight octets in a fragment.
pub proof fn law_which_ipv4_packets_can_be_cut(packet: Seq<u8>, mtu: usize)
    ensures
        ipv4_refusal(packet, mtu) is None <==> packet.len() > 20 && packet[0] == 0x45 && packet[6] % 128 < 32
            && packet[6] % 32 == 0 && packet[7] == 0 && mtu >= 28,
        packet.len() >= 20 && packet[0] == 0x45 && packet[6] % 128 >= 64 ==> ipv4_refusal(packet, mtu) == Some(
            WriterError::Unfragmentable("DF is set"),
        ),
        packet.len() > 20 && packet[0] == 0x45 && packet[6] == 0 && packet[7] == 0 && mtu < 28 ==> ipv4_refusal(
            packet,
            mtu,
        ) == Some(WriterError::TooLarge { size: 28, mtu }),
{
    if packet.len() >= 20 && packet[0] == 0x45 {
        law_where_the_ipv4_fields_stand(packet);
    }
}

/// A packet that fits goes as it is. One that does not goes in fragments that all do.
pub proof fn law_everything_offered_fits(packet: Seq<u8>, mtu: usize, id: u32, k: int)
    requires
        packet.len() > 0,
        packet_error(packet) is None,
        0 <= k,
    ensures
        packet.len() <= mtu ==> packetized(packet, mtu, id) == Ok::<Seq<Seq<u8>>, WriterError>(seq![packet]),
        packet.len() > mtu && packetized(packet, mtu, id) is Ok && k < packetized(packet, mtu, id)->Ok_0.len()
            ==> packetized(packet, mtu, id)->Ok_0[k].len() <= mtu,
        packet.len() > mtu && packetized(packet, mtu, id) is Ok ==> packetized(packet, mtu, id)->Ok_0.len() > 1,
        packet.len() > mtu && 0x60 <= packet[0] <= 0x6f ==> (packetized(packet, mtu, id) is Ok <==> ipv6_refusal(
            packet,
            mtu,
        ) is None),
        packet.len() > mtu && 0x40 <= packet[0] <= 0x4f ==> (packetized(packet, mtu, id) is Ok <==> ipv4_refusal(
            packet,
            mtu,
        ) is None),
{
    law_a_packet_is_as_long_as_it_says(packet);
    if packet.len() > mtu {
        if packet[0] / 16 == 6 {
            if ipv6_refusal(packet, mtu) is None {
                let per = per_fragment(mtu as int, 48)->0;
                lemma_piece(0, packet.len() - 40, per, k);
                lemma_piece(0, packet.len() - 40, per, 1);
                assert(1 * per == per);
                reveal(ipv6_fragment);
                assert(k * per >= 0) by (nonlinear_arith)
                    requires
                        k >= 0,
                        per > 0,
                ;
            }
        } else if ipv4_refusal(packet, mtu) is None {
            law_where_the_ipv4_fields_stand(packet);
            let per = per_fragment(mtu as int, 20)->0;
            let payload = packet.subrange(20, packet.len() as int);
            law_what_an_ipv4_fragment_says(ipv4_fields(packet), payload, per, packet.len() as usize, mtu, k);
            lemma_ipv4_pieces(ipv4_fields(packet), payload, per, 0, packet.len() as usize, mtu, 1);
            lemma_piece(0, payload.len() as int, per, 1);
            assert(1 * per == per);
        }
    }
}

/// The identification of IPv6 fragments counts up by one, and around after the greatest. Only a packet that is cut as
/// IPv6 uses one up.
pub proof fn law_fragment_identifications_count_up(id: u32, packet: Seq<u8>, mtu: usize)
    ensures
        next_fragment_identification(id) == (id + 1) % 4_294_967_296,
        packet.len() > 0 ==> (cut_as_ipv6(packet, mtu) <==> packet.len() > mtu && 0x60 <= packet[0] <= 0x6f),
{
}

/// Only an IPv4 packet that does not fit asks for an identification, for its own addresses and transport. Any other
/// asks for none, is denied none, and leaves what was issued alone.
pub proof fn law_only_what_must_be_cut_is_identified(
    addressed: Addressed,
    oversized: bool,
    now: u64,
    state: Issued,
    guarded: Option<Guarded>,
)
    ensures
        ({
            let sizing = SizingInput { tuple: addressed.tuple(), oversized, now };
            let v4 = addressed.source is V4 && addressed.destination is V4;
            &&& addressed.tuple() is Some <==> v4
            &&& v4 ==> addressed.tuple() == Some(
                (addressed.source->V4_0, addressed.destination->V4_0, addressed.protocol),
            )
            &&& !v4 || !oversized ==> {
                &&& sizing.asks() is None
                &&& sizing.denial(state) is None
                &&& sizing.asked(state) == state
                &&& sizing.issues(state, guarded) <==> guarded is None
            }
            &&& v4 && oversized ==> {
                &&& sizing.asks() == addressed.tuple()
                &&& sizing.denial(state) == state.denial(addressed.tuple()->0, now)
                &&& sizing.asked(state) == state.after_next(addressed.tuple()->0, now)
                &&& sizing.issues(state, guarded) ==> guarded is Some && guarded->0.spec_tuple()
                    == addressed.tuple()->0
            }
        }),
{
}

/// A packet that was built and fits is offered whole, once, with the identification that was issued for it. It counts
/// as queued where it was taken and as refused where it was not.
pub proof fn law_a_packet_that_fits_is_offered_whole(
    emitted: Emitted,
    packet: Vec<u8>,
    guarded: Option<Guarded>,
    mtu: usize,
    state: Issued,
    after: Issued,
    id: u32,
    id_after: u32,
    offered: Seq<Offer>,
    offered_after: Seq<Offer>,
)
    requires
        emission(emitted, Ok(packet), guarded, mtu, state, after, id, id_after, offered, offered_after),
        packet@.len() <= mtu,
    ensures
        id_after == id,
        offered_after.len() == offered.len() + 1,
        offered_after.subrange(0, offered.len() as int) == offered,
        offered_after.last().packets == seq![packet@],
        offered_after.last().guarded == guarded,
        offered_after.last().taken ==> emitted == (Emitted::Handed { queued: 1, refused: 0 }),
        !offered_after.last().taken ==> emitted == (Emitted::Handed { queued: 0, refused: 1 }),
        guarded is None ==> after == state,
        took(offered, offered_after) <==> offered_after.last().taken,
{
    assert(offered_after.subrange(0, offered.len() as int) =~= offered);
}

/// What could not be built is offered to nobody. It is told why, and what was issued for it is given back.
pub proof fn law_what_could_not_be_built_is_not_offered(
    emitted: Emitted,
    error: WriterError,
    guarded: Option<Guarded>,
    mtu: usize,
    state: Issued,
    after: Issued,
    id: u32,
    id_after: u32,
    offered: Seq<Offer>,
    offered_after: Seq<Offer>,
)
    requires
        emission(emitted, Err(error), guarded, mtu, state, after, id, id_after, offered, offered_after),
    ensures
        emitted == Emitted::Unbuildable(error),
        offered_after == offered,
        id_after == id,
        !took(offered, offered_after),
        guarded is Some ==> after == state.after_unissued(guarded->0.spec_tuple(), guarded->0.value()),
        guarded is None ==> after == state,
{
}

/// Every packet is counted once for what became of it, and only what could not be built is reported.
pub proof fn law_every_packet_is_counted_once(state: EmitterState, emitted: Emitted)
    requires
        state.countable(),
        emitted is Handed ==> emitted->queued <= MOST_PACKETS && emitted->refused <= MOST_PACKETS,
    ensures
        ({
            let after = state.counted(emitted);
            &&& emitted is Handed ==> {
                &&& after.queued == state.queued + emitted->queued
                &&& after.handoff_refused == state.handoff_refused + emitted->refused
                &&& after.unbuildable == state.unbuildable
                &&& after.denied == state.denied
            }
            &&& emitted is Denied ==> {
                &&& after.denied == state.denied + 1
                &&& after.queued == state.queued
                &&& after.handoff_refused == state.handoff_refused
                &&& after.unbuildable == state.unbuildable
            }
            &&& emitted is Unbuildable ==> {
                &&& after.unbuildable == state.unbuildable + 1
                &&& after.queued == state.queued
                &&& after.handoff_refused == state.handoff_refused
                &&& after.denied == state.denied
            }
            &&& outcome_of(emitted) is Reported <==> emitted is Unbuildable
            &&& emitted is Unbuildable ==> outcome_of(emitted)->Reported_0 == emitted->Unbuildable_0
            &&& outcome_of(emitted) is Counted <==> emitted is Denied
            &&& after.mtu == state.mtu
            &&& after.identifications == state.identifications
            &&& after.fragment_identification == state.fragment_identification
        }),
{
}

/// Why a packet cannot be cut is told in words: the first thing that stands against it.
pub proof fn law_why_a_packet_cannot_be_cut_is_told(packet: Seq<u8>, mtu: usize, error: IpError)
    ensures
        packet.len() < 40 || packet[0] / 16 != 6 ==> ipv6_refusal(packet, mtu) == Some(
            WriterError::Malformed("not an IPv6 packet"),
        ),
        packet.len() >= 40 && packet[0] / 16 == 6 && packet[6] == 44 ==> ipv6_refusal(packet, mtu) == Some(
            WriterError::Unfragmentable("already fragmented"),
        ),
        packet.len() >= 40 && packet[0] / 16 == 6 && (packet[6] == 0 || packet[6] == 43 || packet[6] == 60)
            ==> ipv6_refusal(packet, mtu) == Some(
            WriterError::Unfragmentable("leading extension header belongs to the unfragmentable part"),
        ),
        packet.len() == 40 && packet[0] / 16 == 6 && packet[6] == 17 && mtu >= 56 ==> ipv6_refusal(packet, mtu) == Some(
            WriterError::Malformed("IPv6 datagram has no payload"),
        ),
        !ipv4_header_fits(packet) ==> ipv4_refusal(packet, mtu) == Some(WriterError::Malformed("not an IPv4 packet")),
        ipv4_header_fits(packet) && packet[0] > 0x45 ==> ipv4_refusal(packet, mtu) == Some(
            WriterError::Unfragmentable("IPv4 options are not copied into fragments"),
        ),
        ipv4_header_fits(packet) && packet[0] == 0x45 && packet[6] % 128 < 64 && (packet[6] % 64 >= 32 || (packet[6]
            % 32) * 256 + packet[7] != 0) ==> ipv4_refusal(packet, mtu) == Some(
            WriterError::Unfragmentable("already fragmented"),
        ),
        packet.len() == 20 && packet[0] == 0x45 && packet[6] == 0 && packet[7] == 0 && mtu >= 28 ==> ipv4_refusal(
            packet,
            mtu,
        ) == Some(WriterError::Malformed("IPv4 datagram has no payload")),
        malformed(error) == WriterError::Malformed(
            if error is Ipv4Header {
                "IPv4 packet shorter than its header"
            } else if error is Ipv4Length {
                "IPv4 total length disagrees"
            } else if error is Ipv6Header {
                "IPv6 packet shorter than its header"
            } else if error is Ipv6Length {
                "IPv6 payload length disagrees"
            } else {
                "not an IPv4 or IPv6 packet"
            },
        ),
{
    if ipv4_header_fits(packet) {
        law_where_the_ipv4_fields_stand(packet);
    }
}

/// A payload is cut piece by piece for as long as a fragment can say where its octets belong. The first piece that lies
/// too far ends it with an error, and so does one that is too long.
pub proof fn law_no_fragment_lies_too_far(
    fields: Ipv4Fields,
    payload: Seq<u8>,
    per: int,
    offset: int,
    size: usize,
    mtu: usize,
)
    requires
        0 <= offset < payload.len(),
        per > 0,
    ensures
        ({
            let r = ipv4_fragments(fields, payload, per, offset, size, mtu);
            let n = if payload.len() - offset < per {
                payload.len() - offset
            } else {
                per
            };
            &&& 65_536 <= offset < 524_288 ==> r.0.len() == 0 && r.1 == Some(WriterError::TooLarge { size, mtu })
            &&& offset < 65_536 && n > 65_515 ==> r.0.len() == 0 && r.1 == Some(
                WriterError::Malformed("IPv4 fragment payload does not fit"),
            )
            &&& offset < 65_536 && n <= 65_515 ==> {
                let rest = ipv4_fragments(fields, payload, per, offset + n, size, mtu);
                &&& r.0.len() == 1 + rest.0.len()
                &&& r.1 == rest.1
                &&& r.0.subrange(1, r.0.len() as int) == rest.0
            }
        }),
{
    let r = ipv4_fragments(fields, payload, per, offset, size, mtu);
    let end = piece_end(offset, payload.len() as int, per);
    let rest = ipv4_fragments(fields, payload, per, end, size, mtu);
    if r.0.len() > 0 {
        assert(r.0.subrange(1, r.0.len() as int) =~= rest.0);
    }
}

} // verus!
