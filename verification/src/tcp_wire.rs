//! What the owner of terminated TCP needs to know of a segment before the stack reads it.
use vstd::prelude::*;

use crate::addr::{IpAddr, SocketAddr};
use crate::ip_wire::{
    ipv4_fields, ipv6_fields, ipv6_payload, ipv6_payload_kind, law_a_packet_is_as_long_as_it_says,
    law_where_the_ipv4_fields_stand, packet_error, Ipv6Payload, Packet,
};
use crate::octets::{be128, be16, be32, read_u16};
use crate::udp_wire::Reject;

verus! {

/// The IP protocol number of TCP.
pub const TCP: u8 = 6;

/// The size of a TCP header without options.
pub const TCP_HEADER_LEN: usize = 20;

/// One segment's flow and what it announces.
#[derive(Clone, Copy, Debug, PartialEq, Eq, Structural)]
pub struct Segment {
    pub source: SocketAddr,
    pub destination: SocketAddr,
    pub hop_limit: u8,
    pub syn: bool,
    pub rst: bool,
}

/// The segment whose header starts `t`.
pub open spec fn segment_of(t: Seq<u8>, hop_limit: u8, source: IpAddr, destination: IpAddr) -> Result<
    Segment,
    Reject,
> {
    if t.len() < 20 {
        Err(Reject::Malformed("TCP header does not fit"))
    } else if be16(t, 0) == 0 || be16(t, 2) == 0 {
        Err(Reject::Malformed("TCP port 0"))
    } else {
        Ok(
            Segment {
                source: SocketAddr { ip: source, port: be16(t, 0) as u16 },
                destination: SocketAddr { ip: destination, port: be16(t, 2) as u16 },
                hop_limit,
                syn: (t[13] / 2) % 2 == 1,
                rst: (t[13] / 4) % 2 == 1,
            },
        )
    }
}

/// What a packet says, read as a TCP segment.
pub open spec fn tcp_segment(s: Seq<u8>) -> Result<Segment, Reject> {
    match packet_error(s) {
        Some(error) => Err(Reject::Malformed(error.text())),
        None => if s[0] / 16 == 4 {
            let header = ipv4_fields(s);
            if header.protocol != 6 {
                Err(Reject::NotUdp)
            } else if header.more_fragments || header.fragment_offset != 0 {
                Err(Reject::Fragmented)
            } else {
                segment_of(
                    s.subrange(header.header_len as int, s.len() as int),
                    header.time_to_live,
                    IpAddr::V4(header.source),
                    IpAddr::V4(header.destination),
                )
            }
        } else {
            let header = ipv6_fields(s);
            match ipv6_payload_kind(header.next_header, 6) {
                Ipv6Payload::Fragment => Err(Reject::Fragmented),
                Ipv6Payload::Extension => Err(Reject::Extended),
                Ipv6Payload::Other => Err(Reject::NotUdp),
                Ipv6Payload::Transport => segment_of(
                    s.subrange(40, s.len() as int),
                    header.hop_limit,
                    IpAddr::V6(header.source),
                    IpAddr::V6(header.destination),
                ),
            }
        },
    }
}

fn endpoint(address: IpAddr, port: u16) -> (r: SocketAddr)
    ensures
        r == (SocketAddr { ip: address, port }),
{
    SocketAddr::new(address, port)
}

/// Reads the flow of one unfragmented TCP segment, and whether it opens or resets one.
pub fn peek(packet: &[u8]) -> (r: Result<Segment, Reject>)
    ensures
        r == tcp_segment(packet@),
{
    let (transport, hop_limit, source, destination) = match Packet::parse(packet) {
        Err(error) => return Err(Reject::Malformed(error.message())),
        Ok(Packet::Ipv4 { header, payload }) => {
            if header.protocol != TCP {
                return Err(Reject::NotUdp);
            }
            if header.more_fragments || header.fragment_offset != 0 {
                return Err(Reject::Fragmented);
            }
            (
                payload,
                header.time_to_live,
                IpAddr::V4(header.source),
                IpAddr::V4(header.destination),
            )
        },
        Ok(Packet::Ipv6 { header, payload }) => {
            match ipv6_payload(header.next_header, TCP) {
                Ipv6Payload::Transport => {},
                Ipv6Payload::Fragment => return Err(Reject::Fragmented),
                Ipv6Payload::Extension => return Err(Reject::Extended),
                Ipv6Payload::Other => return Err(Reject::NotUdp),
            }
            (payload, header.hop_limit, IpAddr::V6(header.source), IpAddr::V6(header.destination))
        },
    };
    if transport.len() < TCP_HEADER_LEN {
        return Err(Reject::Malformed("TCP header does not fit"));
    }
    let source_port: u16 = read_u16(transport, 0);
    let destination_port: u16 = read_u16(transport, 2);
    if source_port == 0 || destination_port == 0 {
        return Err(Reject::Malformed("TCP port 0"));
    }
    Ok(
        Segment {
            source: endpoint(source, source_port),
            destination: endpoint(destination, destination_port),
            hop_limit,
            syn: transport[13] / 2 % 2 == 1,
            rst: transport[13] / 4 % 2 == 1,
        },
    )
}

/// A TCP segment is read exactly off a whole IP packet of either family with TCP right behind its IP header, a whole
/// TCP header and two ports. Its ports, hop limit and flags are those that stand in the packet, and its addresses are
/// those of the IP header.
pub proof fn law_a_segment_is_read_off_its_packet(s: Seq<u8>)
    requires
        packet_error(s) is None,
    ensures
        ({
            let v4 = s[0] < 0x60;
            let at = if v4 {
                (s[0] - 0x40) * 4
            } else {
                40
            };
            let carried = if v4 {
                s[9] == 6 && s[6] % 64 < 32 && (s[6] % 32) * 256 + s[7] == 0
            } else {
                s[6] == 6
            };
            let r = tcp_segment(s);
            &&& r is Ok <==> carried && s.len() - at >= 20 && be16(s, at) != 0 && be16(s, at + 2) != 0
            &&& r is Ok ==> {
                let segment = r->Ok_0;
                &&& segment.source.port == be16(s, at)
                &&& segment.destination.port == be16(s, at + 2)
                &&& segment.hop_limit == if v4 {
                    s[8]
                } else {
                    s[7]
                }
                &&& segment.syn <==> s[at + 13] % 4 >= 2
                &&& segment.rst <==> s[at + 13] % 8 >= 4
                &&& v4 ==> segment.source.ip == IpAddr::V4(be32(s, 12) as u32) && segment.destination.ip
                    == IpAddr::V4(be32(s, 16) as u32)
                &&& !v4 ==> segment.source.ip == IpAddr::V6(be128(s, 8) as u128) && segment.destination.ip
                    == IpAddr::V6(be128(s, 24) as u128)
            }
        }),
{
    let at = if s[0] < 0x60 {
        (s[0] - 0x40) * 4
    } else {
        40
    };
    let t = s.subrange(at, s.len() as int);
    law_a_packet_is_as_long_as_it_says(s);
    if s[0] < 0x60 {
        law_where_the_ipv4_fields_stand(s);
    }
    if t.len() >= 20 {
        assert(t[0] == s[at] && t[1] == s[at + 1] && t[2] == s[at + 2] && t[3] == s[at + 3]);
        assert(t[13] == s[at + 13]);
    }
}

/// Why a packet holds no TCP segment: a fragment is said to be one, of either family, and so are packets with an
/// extension before their payload and packets of another transport.
pub proof fn law_why_a_segment_was_refused(s: Seq<u8>)
    requires
        packet_error(s) is None,
    ensures
        ({
            let r = tcp_segment(s);
            let v4 = s[0] < 0x60;
            let cut = s[6] % 64 >= 32 || (s[6] % 32) * 256 + s[7] != 0;
            &&& r == Err::<Segment, Reject>(Reject::Fragmented) <==> if v4 {
                s[9] == 6 && cut
            } else {
                s[6] == 44
            }
            &&& r == Err::<Segment, Reject>(Reject::Extended) ==> !v4
            &&& v4 ==> (r == Err::<Segment, Reject>(Reject::NotUdp) <==> s[9] != 6)
            &&& !v4 && (s[6] == 17 || s[6] == 58) ==> r == Err::<Segment, Reject>(Reject::NotUdp)
            &&& !v4 && (s[6] == 0 || s[6] == 43 || s[6] == 60) ==> r == Err::<Segment, Reject>(Reject::Extended)
        }),
{
    law_a_packet_is_as_long_as_it_says(s);
    if s[0] < 0x60 {
        law_where_the_ipv4_fields_stand(s);
    }
}

/// What is wrong with a TCP segment is told in words: the first thing that is.
pub proof fn law_what_is_wrong_with_a_segment_is_told(s: Seq<u8>)
    ensures
        packet_error(s) is Some ==> tcp_segment(s) == Err::<Segment, Reject>(
            Reject::Malformed(packet_error(s)->0.text()),
        ),
        packet_error(s) is None && (if s[0] < 0x60 {
            s[9] == 6 && s[6] % 64 < 32 && (s[6] % 32) * 256 + s[7] == 0
        } else {
            s[6] == 6
        }) ==> {
            let at = if s[0] < 0x60 {
                (s[0] - 0x40) * 4
            } else {
                40
            };
            let n = s.len() - at;
            let r = tcp_segment(s);
            &&& n < 20 ==> r == Err::<Segment, Reject>(Reject::Malformed("TCP header does not fit"))
            &&& n >= 20 && r is Err ==> r == Err::<Segment, Reject>(Reject::Malformed("TCP port 0"))
        },
{
    if packet_error(s) is None {
        law_a_packet_is_as_long_as_it_says(s);
        if s[0] < 0x60 {
            law_where_the_ipv4_fields_stand(s);
        }
    }
}

} // verus!
