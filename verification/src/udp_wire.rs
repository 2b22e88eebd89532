//! UDP datagrams: read strictly, and written back to the client.
use vstd::prelude::*;

use crate::addr::{IpAddr, SocketAddr};
use crate::checksum::{
    law_a_checksum_makes_up_for_its_octets, law_one_changed_octet_shows, ones_complement_no_zero, word_sum,
};
use crate::ip_wire::{
    ipv4_fields, ipv6_fields, ipv6_header_bytes, ipv6_header_layout, ipv6_payload, ipv6_payload_kind,
    law_a_packet_is_as_long_as_it_says, law_where_the_ipv4_fields_stand, lemma_ipv6_layout, packet_error, Ipv4Fields,
    Ipv6Fields, Ipv6Payload, Packet,
};
use crate::octets::{be128, be16, be32, law_read_back_u16, lemma_oct16_len, oct16, oct2, oct4, push_all};
use crate::packet_writer::{ipv4_header_sealed, lemma_sealed, seal_ipv4_header, WriterError};

verus! {

/// The IP protocol number of UDP.
pub const UDP: u8 = 17;

/// The size of a UDP header.
pub const UDP_HEADER_LEN: usize = 8;

/// One datagram to relay.
#[derive(Clone, Copy, Debug, PartialEq, Eq)]
pub struct Relayed<'a> {
    pub source: SocketAddr,
    pub destination: SocketAddr,
    pub hop_limit: u8,
    pub dont_fragment: bool,
    pub payload: &'a [u8],
}

/// Why a packet is not a datagram to relay.
#[derive(Clone, Copy, Debug, PartialEq, Eq)]
pub enum Reject {
    NotUdp,
    Fragmented,
    Extended,
    Malformed(&'static str),
}

/// What a packet says, read as a datagram.
pub struct Datagram {
    pub source: SocketAddr,
    pub destination: SocketAddr,
    pub hop_limit: u8,
    pub dont_fragment: bool,
    pub payload: Seq<u8>,
}

impl<'a> Relayed<'a> {
    pub open spec fn datagram(self) -> Datagram {
        Datagram {
            source: self.source,
            destination: self.destination,
            hop_limit: self.hop_limit,
            dont_fragment: self.dont_fragment,
            payload: self.payload@,
        }
    }
}

/// What is wrong with a UDP header and its place in `t`, if anything is.
pub open spec fn transport_error(t: Seq<u8>) -> Option<Reject> {
    if t.len() < 8 {
        Some(Reject::Malformed("UDP header does not fit"))
    } else if be16(t, 4) != t.len() {
        Some(Reject::Malformed("UDP length disagrees"))
    } else if be16(t, 0) == 0 || be16(t, 2) == 0 {
        Some(Reject::Malformed("UDP port 0"))
    } else {
        None
    }
}

/// The checksum of a UDP datagram over IPv4.
#[verifier::opaque]
pub open spec fn udp_sum_ipv4(
    source: u32,
    destination: u32,
    source_port: u16,
    destination_port: u16,
    length: u16,
    payload: Seq<u8>,
) -> u16 {
    ones_complement_no_zero(
        oct4(source as int) + oct4(destination as int) + seq![0u8, 17u8] + oct2(length as int) + oct2(
            source_port as int,
        ) + oct2(destination_port as int) + oct2(length as int) + payload,
    )
}

/// The checksum of a UDP datagram over IPv6.
#[verifier::opaque]
pub open spec fn udp_sum_ipv6(
    source: u128,
    destination: u128,
    source_port: u16,
    destination_port: u16,
    length: u16,
    payload: Seq<u8>,
) -> u16 {
    ones_complement_no_zero(
        oct16(source as int) + oct16(destination as int) + seq![0u8, 17u8] + oct2(length as int) + oct2(
            source_port as int,
        ) + oct2(destination_port as int) + oct2(length as int) + payload,
    )
}

/// The checksum of a UDP datagram over IPv4.
///
/// Calls `etherparse::UdpHeader::calc_checksum_ipv4_raw`: the complement of the folded word sum of the
/// pseudo-header, the header without its checksum and the payload, with zero sent as all ones.
#[verifier::external_body]
fn udp_checksum_ipv4(
    source: u32,
    destination: u32,
    source_port: u16,
    destination_port: u16,
    length: u16,
    payload: &[u8],
) -> (r: u16)
    requires
        payload@.len() <= 65527,
    ensures
        r == udp_sum_ipv4(source, destination, source_port, destination_port, length, payload@),
{
    let header = etherparse::UdpHeader { source_port, destination_port, length, checksum: 0 };
    header.calc_checksum_ipv4_raw(source.to_be_bytes(), destination.to_be_bytes(), payload).unwrap()
}

/// The checksum of a UDP datagram over IPv6.
///
/// Calls `etherparse::UdpHeader::calc_checksum_ipv6_raw`: the complement of the folded word sum of the
/// pseudo-header, the header without its checksum and the payload, with zero sent as all ones.
#[verifier::external_body]
fn udp_checksum_ipv6(
    source: u128,
    destination: u128,
    source_port: u16,
    destination_port: u16,
    length: u16,
    payload: &[u8],
) -> (r: u16)
    requires
        payload@.len() <= 65527,
    ensures
        r == udp_sum_ipv6(source, destination, source_port, destination_port, length, payload@),
{
    let header = etherparse::UdpHeader { source_port, destination_port, length, checksum: 0 };
    header.calc_checksum_ipv6_raw(source.to_be_bytes(), destination.to_be_bytes(), payload).unwrap()
}

/// What a UDP header says.
pub struct UdpFields {
    pub source_port: u16,
    pub destination_port: u16,
    pub length: u16,
    pub checksum: u16,
}

/// The UDP header at the start of `t`.
pub open spec fn udp_fields(t: Seq<u8>) -> UdpFields {
    UdpFields {
        source_port: be16(t, 0) as u16,
        destination_port: be16(t, 2) as u16,
        length: be16(t, 4) as u16,
        checksum: be16(t, 6) as u16,
    }
}

/// A UDP header, laid out.
pub open spec fn udp_header_layout(fields: UdpFields) -> Seq<u8> {
    oct2(fields.source_port as int) + oct2(fields.destination_port as int) + oct2(fields.length as int)
        + oct2(fields.checksum as int)
}

/// The UDP header at the start of a slice.
///
/// Calls `etherparse::UdpHeader::from_slice`, which takes exactly the slices of at least eight octets.
#[verifier::external_body]
fn udp_header(slice: &[u8]) -> (r: Option<UdpFields>)
    ensures
        r == (if slice@.len() >= 8 { Some(udp_fields(slice@)) } else { None }),
{
    let header = etherparse::UdpHeader::from_slice(slice).ok()?.0;
    Some(UdpFields {
        source_port: header.source_port,
        destination_port: header.destination_port,
        length: header.length,
        checksum: header.checksum,
    })
}

/// The octets of a UDP header.
///
/// Calls `etherparse::UdpHeader::to_bytes`, which lays the four fields out in order.
#[verifier::external_body]
fn udp_header_bytes(fields: &UdpFields) -> (r: Vec<u8>)
    ensures
        r@ == udp_header_layout(*fields),
{
    etherparse::UdpHeader {
        source_port: fields.source_port,
        destination_port: fields.destination_port,
        length: fields.length,
        checksum: fields.checksum,
    }.to_bytes().to_vec()
}

/// What the UDP datagram of an IPv4 packet says.
pub open spec fn ipv4_datagram(s: Seq<u8>) -> Result<Datagram, Reject> {
    let header = ipv4_fields(s);
    let t = s.subrange(header.header_len as int, s.len() as int);
    let payload = t.subrange(8, t.len() as int);
    if header.protocol != 17 {
        Err(Reject::NotUdp)
    } else if header.more_fragments || header.fragment_offset != 0 {
        Err(Reject::Fragmented)
    } else {
        match transport_error(t) {
            Some(reject) => Err(reject),
            None => {
                let udp = udp_fields(t);
                if udp.checksum != 0 && udp_sum_ipv4(
                    header.source,
                    header.destination,
                    udp.source_port,
                    udp.destination_port,
                    udp.length,
                    payload,
                ) != udp.checksum {
                    Err(Reject::Malformed("IPv4 UDP checksum mismatch"))
                } else {
                    Ok(
                        Datagram {
                            source: SocketAddr { ip: IpAddr::V4(header.source), port: udp.source_port },
                            destination: SocketAddr {
                                ip: IpAddr::V4(header.destination),
                                port: udp.destination_port,
                            },
                            hop_limit: header.time_to_live,
                            dont_fragment: header.dont_fragment,
                            payload,
                        },
                    )
                }
            },
        }
    }
}

/// What the UDP datagram of an IPv6 packet says.
pub open spec fn ipv6_datagram(s: Seq<u8>) -> Result<Datagram, Reject> {
    let header = ipv6_fields(s);
    let t = s.subrange(40, s.len() as int);
    let payload = t.subrange(8, t.len() as int);
    match ipv6_payload_kind(header.next_header, 17) {
        Ipv6Payload::Fragment => Err(Reject::Fragmented),
        Ipv6Payload::Extension => Err(Reject::Extended),
        Ipv6Payload::Other => Err(Reject::NotUdp),
        Ipv6Payload::Transport => match transport_error(t) {
            Some(reject) => Err(reject),
            None => {
                let udp = udp_fields(t);
                if udp.checksum == 0 {
                    Err(Reject::Malformed("IPv6 UDP checksum absent"))
                } else if udp_sum_ipv6(
                    header.source,
                    header.destination,
                    udp.source_port,
                    udp.destination_port,
                    udp.length,
                    payload,
                ) != udp.checksum {
                    Err(Reject::Malformed("IPv6 UDP checksum mismatch"))
                } else {
                    Ok(
                        Datagram {
                            source: SocketAddr { ip: IpAddr::V6(header.source), port: udp.source_port },
                            destination: SocketAddr {
                                ip: IpAddr::V6(header.destination),
                                port: udp.destination_port,
                            },
                            hop_limit: header.hop_limit,
                            dont_fragment: true,
                            payload,
                        },
                    )
                }
            },
        },
    }
}

/// What a packet says, read as a UDP datagram.
pub open spec fn udp_datagram(s: Seq<u8>) -> Result<Datagram, Reject> {
    match packet_error(s) {
        Some(error) => Err(Reject::Malformed(error.text())),
        None => if s[0] / 16 == 4 {
            ipv4_datagram(s)
        } else {
            ipv6_datagram(s)
        },
    }
}

/// The outcome of a parse, over the octets of its payload.
pub open spec fn parsed(r: Result<Relayed<'_>, Reject>) -> Result<Datagram, Reject> {
    match r {
        Ok(relayed) => Ok(relayed.datagram()),
        Err(reject) => Err(reject),
    }
}

fn transport<'a>(slice: &'a [u8]) -> (r: Result<(UdpFields, &'a [u8]), Reject>)
    ensures
        match r {
            Err(reject) => transport_error(slice@) == Some(reject),
            Ok((udp, payload)) => {
                &&& transport_error(slice@) is None
                &&& udp == udp_fields(slice@)
                &&& payload@ == slice@.subrange(8, slice@.len() as int)
            },
        },
{
    match udp_header(slice) {
        None => Err(Reject::Malformed("UDP header does not fit")),
        Some(header) => {
            if header.length as usize != slice.len() {
                Err(Reject::Malformed("UDP length disagrees"))
            } else if header.source_port == 0 || header.destination_port == 0 {
                Err(Reject::Malformed("UDP port 0"))
            } else {
                Ok((header, vstd::slice::slice_subrange(slice, UDP_HEADER_LEN, slice.len())))
            }
        },
    }
}

fn parse_ipv4<'a>(packet: &'a [u8], header: Ipv4Fields, payload: &'a [u8]) -> (r: Result<
    Relayed<'a>,
    Reject,
>)
    requires
        packet_error(packet@) is None,
        packet@[0] / 16 == 4,
        header == ipv4_fields(packet@),
        payload@ == packet@.subrange(header.header_len as int, packet@.len() as int),
    ensures
        parsed(r) == ipv4_datagram(packet@),
{
    if header.protocol != UDP {
        return Err(Reject::NotUdp);
    }
    if header.more_fragments || header.fragment_offset != 0 {
        return Err(Reject::Fragmented);
    }
    let (udp, payload) = match transport(payload) {
        Ok(found) => found,
        Err(reject) => return Err(reject),
    };
    if udp.checksum != 0 && udp_checksum_ipv4(
        header.source,
        header.destination,
        udp.source_port,
        udp.destination_port,
        udp.length,
        payload,
    ) != udp.checksum {
        return Err(Reject::Malformed("IPv4 UDP checksum mismatch"));
    }
    Ok(
        Relayed {
            source: SocketAddr::new(IpAddr::V4(header.source), udp.source_port),
            destination: SocketAddr::new(IpAddr::V4(header.destination), udp.destination_port),
            hop_limit: header.time_to_live,
            dont_fragment: header.dont_fragment,
            payload,
        },
    )
}

fn parse_ipv6<'a>(packet: &'a [u8], header: Ipv6Fields, payload: &'a [u8]) -> (r: Result<
    Relayed<'a>,
    Reject,
>)
    requires
        packet_error(packet@) is None,
        packet@[0] / 16 == 6,
        header == ipv6_fields(packet@),
        payload@ == packet@.subrange(40, packet@.len() as int),
    ensures
        parsed(r) == ipv6_datagram(packet@),
{
    match ipv6_payload(header.next_header, UDP) {
        Ipv6Payload::Transport => {},
        Ipv6Payload::Fragment => return Err(Reject::Fragmented),
        Ipv6Payload::Extension => return Err(Reject::Extended),
        Ipv6Payload::Other => return Err(Reject::NotUdp),
    }
    let (udp, payload) = match transport(payload) {
        Ok(found) => found,
        Err(reject) => return Err(reject),
    };
    if udp.checksum == 0 {
        return Err(Reject::Malformed("IPv6 UDP checksum absent"));
    }
    if udp_checksum_ipv6(
        header.source,
        header.destination,
        udp.source_port,
        udp.destination_port,
        udp.length,
        payload,
    ) != udp.checksum {
        return Err(Reject::Malformed("IPv6 UDP checksum mismatch"));
    }
    Ok(
        Relayed {
            source: SocketAddr::new(IpAddr::V6(header.source), udp.source_port),
            destination: SocketAddr::new(IpAddr::V6(header.destination), udp.destination_port),
            hop_limit: header.hop_limit,
            dont_fragment: true,
            payload,
        },
    )
}

/// Reads one whole, unfragmented UDP datagram whose checksum holds.
pub fn parse<'a>(packet: &'a [u8]) -> (r: Result<Relayed<'a>, Reject>)
    ensures
        parsed(r) == udp_datagram(packet@),
{
    match Packet::parse(packet) {
        Err(error) => Err(Reject::Malformed(error.message())),
        Ok(Packet::Ipv4 { header, payload }) => parse_ipv4(packet, header, payload),
        Ok(Packet::Ipv6 { header, payload }) => parse_ipv6(packet, header, payload),
    }
}

/// The IPv4 header of a reply.
pub open spec fn reply_ipv4_fields(
    remote: u32,
    client: u32,
    hop_limit: u8,
    identification: Option<u16>,
    length: int,
) -> Ipv4Fields {
    Ipv4Fields {
        header_len: 20,
        dscp: 0,
        ecn: 0,
        total_len: (28 + length) as u16,
        identification: match identification {
            Some(value) => value,
            None => 0,
        },
        dont_fragment: identification is None,
        more_fragments: false,
        fragment_offset: 0,
        time_to_live: hop_limit,
        protocol: 17,
        source: remote,
        destination: client,
    }
}

/// The packet that a reply is built as.
pub open spec fn reply_packet(
    remote: SocketAddr,
    client: SocketAddr,
    hop_limit: u8,
    identification: Option<u16>,
    payload: Seq<u8>,
) -> Result<Seq<u8>, WriterError> {
    let length = (8 + payload.len()) as u16;
    match (remote.ip, client.ip) {
        (IpAddr::V4(source), IpAddr::V4(destination)) => if payload.len() > 65507 {
            Err(WriterError::Malformed("reply exceeds an IPv4 datagram"))
        } else {
            let checksum = udp_sum_ipv4(source, destination, remote.port, client.port, length, payload);
            Ok(
                ipv4_header_sealed(
                    reply_ipv4_fields(
                        source,
                        destination,
                        hop_limit,
                        identification,
                        payload.len() as int,
                    ),
                ) + udp_header_layout(
                    UdpFields {
                        source_port: remote.port,
                        destination_port: client.port,
                        length,
                        checksum,
                    },
                ) + payload,
            )
        },
        (IpAddr::V6(source), IpAddr::V6(destination)) => if payload.len() > 65527 {
            Err(WriterError::Malformed("reply exceeds an IPv6 datagram"))
        } else {
            let checksum = udp_sum_ipv6(source, destination, remote.port, client.port, length, payload);
            Ok(
                ipv6_header_layout(
                    Ipv6Fields {
                        payload_length: length,
                        next_header: 17,
                        hop_limit,
                        source,
                        destination,
                    },
                ) + udp_header_layout(
                    UdpFields {
                        source_port: remote.port,
                        destination_port: client.port,
                        length,
                        checksum,
                    },
                ) + payload,
            )
        },
        _ => Err(WriterError::Malformed("reply crosses address families")),
    }
}

fn assemble(ip: Vec<u8>, udp: &UdpFields, payload: &[u8]) -> (r: Vec<u8>)
    ensures
        r@ == ip@ + udp_header_layout(*udp) + payload@,
{
    let mut packet = ip;
    let header = udp_header_bytes(udp);
    push_all(&mut packet, header.as_slice());
    push_all(&mut packet, payload);
    packet
}

/// Builds one datagram from a remote endpoint to a client, fragmentable only under an Identification.
pub fn build_reply(
    remote: SocketAddr,
    client: SocketAddr,
    hop_limit: u8,
    identification: Option<u16>,
    payload: &[u8],
) -> (r: Result<Vec<u8>, WriterError>)
    ensures
        match r {
            Ok(packet) => reply_packet(remote, client, hop_limit, identification, payload@) == Ok::<
                Seq<u8>,
                WriterError,
            >(packet@),
            Err(error) => reply_packet(remote, client, hop_limit, identification, payload@) == Err::<
                Seq<u8>,
                WriterError,
            >(error),
        },
{
    match (remote.ip, client.ip) {
        (IpAddr::V4(source), IpAddr::V4(destination)) => {
            if payload.len() > 65507 {
                return Err(WriterError::Malformed("reply exceeds an IPv4 datagram"));
            }
            let length: u16 = (UDP_HEADER_LEN + payload.len()) as u16;
            let header = Ipv4Fields {
                header_len: 20,
                dscp: 0,
                ecn: 0,
                total_len: 20 + length,
                identification: match identification {
                    Some(value) => value,
                    None => 0,
                },
                dont_fragment: identification.is_none(),
                more_fragments: false,
                fragment_offset: 0,
                time_to_live: hop_limit,
                protocol: UDP,
                source,
                destination,
            };
            let checksum: u16 = udp_checksum_ipv4(
                source,
                destination,
                remote.port,
                client.port,
                length,
                payload,
            );
            let udp = UdpFields {
                source_port: remote.port,
                destination_port: client.port,
                length,
                checksum,
            };
            Ok(assemble(seal_ipv4_header(&header), &udp, payload))
        },
        (IpAddr::V6(source), IpAddr::V6(destination)) => {
            if payload.len() > 65527 {
                return Err(WriterError::Malformed("reply exceeds an IPv6 datagram"));
            }
            let length: u16 = (UDP_HEADER_LEN + payload.len()) as u16;
            let header = Ipv6Fields {
                payload_length: length,
                next_header: UDP,
                hop_limit,
                source,
                destination,
            };
            let checksum: u16 = udp_checksum_ipv6(
                source,
                destination,
                remote.port,
                client.port,
                length,
                payload,
            );
            let udp = UdpFields {
                source_port: remote.port,
                destination_port: client.port,
                length,
                checksum,
            };
            Ok(assemble(ipv6_header_bytes(&header), &udp, payload))
        },
        _ => Err(WriterError::Malformed("reply crosses address families")),
    }
}

proof fn lemma_udp_layout(fields: UdpFields, payload: Seq<u8>)
    requires
        fields.length == 8 + payload.len(),
    ensures
        ({
            let t = udp_header_layout(fields) + payload;
            &&& t.len() == 8 + payload.len()
            &&& udp_fields(t) == fields
            &&& be16(t, 0) == fields.source_port
            &&& be16(t, 2) == fields.destination_port
            &&& be16(t, 4) == fields.length
            &&& t.subrange(8, t.len() as int) == payload
        }),
{
    let t = udp_header_layout(fields) + payload;
    assert(t.subrange(0, 2) =~= oct2(fields.source_port as int));
    assert(t.subrange(2, 4) =~= oct2(fields.destination_port as int));
    assert(t.subrange(4, 6) =~= oct2(fields.length as int));
    assert(t.subrange(6, 8) =~= oct2(fields.checksum as int));
    law_read_back_u16(t, 0, fields.source_port as int);
    law_read_back_u16(t, 2, fields.destination_port as int);
    law_read_back_u16(t, 4, fields.length as int);
    law_read_back_u16(t, 6, fields.checksum as int);
    assert(t.subrange(8, t.len() as int) =~= payload);
}

/// A datagram that was built reads back as itself: its endpoints, its hop limit and its payload, and
/// fragmentable exactly where it was built under an Identification.
pub proof fn law_reply_reads_back(
    remote: SocketAddr,
    client: SocketAddr,
    hop_limit: u8,
    identification: Option<u16>,
    payload: Seq<u8>,
)
    requires
        reply_packet(remote, client, hop_limit, identification, payload) is Ok,
        remote.port != 0,
        client.port != 0,
    ensures
        udp_datagram(reply_packet(remote, client, hop_limit, identification, payload)->Ok_0) == Ok::<
            Datagram,
            Reject,
        >(
            Datagram {
                source: remote,
                destination: client,
                hop_limit,
                dont_fragment: remote.ip is V6 || identification is None,
                payload,
            },
        ),
{
    let packet = reply_packet(remote, client, hop_limit, identification, payload)->Ok_0;
    let length = (8 + payload.len()) as u16;
    match (remote.ip, client.ip) {
        (IpAddr::V4(source), IpAddr::V4(destination)) => {
            let fields = reply_ipv4_fields(
                source,
                destination,
                hop_limit,
                identification,
                payload.len() as int,
            );
            let udp = UdpFields {
                source_port: remote.port,
                destination_port: client.port,
                length,
                checksum: udp_sum_ipv4(source, destination, remote.port, client.port, length, payload),
            };
            let t = udp_header_layout(udp) + payload;
            lemma_sealed(fields, t);
            lemma_udp_layout(udp, payload);
            assert(packet =~= ipv4_header_sealed(fields) + t);
            assert(packet.subrange(20, packet.len() as int) =~= t);
        },
        (IpAddr::V6(source), IpAddr::V6(destination)) => {
            let fields = Ipv6Fields {
                payload_length: length,
                next_header: 17,
                hop_limit,
                source,
                destination,
            };
            let udp = UdpFields {
                source_port: remote.port,
                destination_port: client.port,
                length,
                checksum: udp_sum_ipv6(source, destination, remote.port, client.port, length, payload),
            };
            let t = udp_header_layout(udp) + payload;
            lemma_ipv6_layout(fields, t);
            lemma_udp_layout(udp, payload);
            assert(packet =~= ipv6_header_layout(fields) + t);
            assert(packet.subrange(40, packet.len() as int) =~= t);
            lemma_sum_ipv6_nonzero(source, destination, remote.port, client.port, length, payload);
        },
        _ => {},
    }
}

proof fn lemma_sum_ipv6_nonzero(
    source: u128,
    destination: u128,
    source_port: u16,
    destination_port: u16,
    length: u16,
    payload: Seq<u8>,
)
    ensures
        udp_sum_ipv6(source, destination, source_port, destination_port, length, payload) != 0,
{
    reveal(udp_sum_ipv6);
}

proof fn lemma_changed_ipv4(
    source: u32,
    destination: u32,
    source_port: u16,
    destination_port: u16,
    length: u16,
    payload: Seq<u8>,
    k: int,
    v: u8,
)
    requires
        0 <= k < payload.len(),
        v != payload[k],
    ensures
        udp_sum_ipv4(source, destination, source_port, destination_port, length, payload.update(k, v))
            != udp_sum_ipv4(source, destination, source_port, destination_port, length, payload),
        udp_sum_ipv4(source, destination, source_port, destination_port, length, payload) != 0,
{
    reveal(udp_sum_ipv4);
    let head = oct4(source as int) + oct4(destination as int) + seq![0u8, 17u8] + oct2(length as int) + oct2(
        source_port as int,
    ) + oct2(destination_port as int) + oct2(length as int);
    assert(head.len() == 18);
    assert(head[9] == 17);
    assert((head + payload)[9] == 17);
    law_one_changed_octet_shows(head + payload, 18 + k, v, 9);
    assert((head + payload).update(18 + k, v) =~= head + payload.update(k, v));
}

proof fn lemma_changed_ipv6(
    source: u128,
    destination: u128,
    source_port: u16,
    destination_port: u16,
    length: u16,
    payload: Seq<u8>,
    k: int,
    v: u8,
)
    requires
        0 <= k < payload.len(),
        v != payload[k],
    ensures
        udp_sum_ipv6(source, destination, source_port, destination_port, length, payload.update(k, v))
            != udp_sum_ipv6(source, destination, source_port, destination_port, length, payload),
{
    reveal(udp_sum_ipv6);
    lemma_oct16_len(source as int);
    lemma_oct16_len(destination as int);
    let head = oct16(source as int) + oct16(destination as int) + seq![0u8, 17u8] + oct2(length as int) + oct2(
        source_port as int,
    ) + oct2(destination_port as int) + oct2(length as int);
    assert(head.len() == 42);
    assert(head[33] == 17);
    assert((head + payload)[33] == 17);
    law_one_changed_octet_shows(head + payload, 42 + k, v, 33);
    assert((head + payload).update(42 + k, v) =~= head + payload.update(k, v));
}

/// A datagram that was built, and of whose payload one octet was then changed, is refused: its checksum does not hold.
#[verifier::spinoff_prover]
#[verifier::rlimit(50)]
pub proof fn law_a_changed_reply_is_refused(
    remote: SocketAddr,
    client: SocketAddr,
    hop_limit: u8,
    identification: Option<u16>,
    payload: Seq<u8>,
    k: int,
    v: u8,
)
    requires
        reply_packet(remote, client, hop_limit, identification, payload) is Ok,
        remote.port != 0,
        client.port != 0,
        0 <= k < payload.len(),
        v != payload[k],
    ensures
        ({
            let packet = reply_packet(remote, client, hop_limit, identification, payload)->Ok_0;
            let at = packet.len() - payload.len() + k;
            udp_datagram(packet.update(at, v)) == Err::<Datagram, Reject>(
                Reject::Malformed(
                    if remote.ip is V6 {
                        "IPv6 UDP checksum mismatch"
                    } else {
                        "IPv4 UDP checksum mismatch"
                    },
                ),
            )
        }),
{
    let packet = reply_packet(remote, client, hop_limit, identification, payload)->Ok_0;
    let at = packet.len() - payload.len() + k;
    let changed = packet.update(at, v);
    let other = payload.update(k, v);
    let length = (8 + payload.len()) as u16;
    match (remote.ip, client.ip) {
        (IpAddr::V4(source), IpAddr::V4(destination)) => {
            let fields = reply_ipv4_fields(
                source,
                destination,
                hop_limit,
                identification,
                payload.len() as int,
            );
            let udp = UdpFields {
                source_port: remote.port,
                destination_port: client.port,
                length,
                checksum: udp_sum_ipv4(source, destination, remote.port, client.port, length, payload),
            };
            let t = udp_header_layout(udp) + other;
            lemma_sealed(fields, t);
            lemma_udp_layout(udp, other);
            lemma_changed_ipv4(source, destination, remote.port, client.port, length, payload, k, v);
            assert(changed =~= ipv4_header_sealed(fields) + t);
            assert(changed.subrange(20, changed.len() as int) =~= t);
        },
        (IpAddr::V6(source), IpAddr::V6(destination)) => {
            let fields = Ipv6Fields {
                payload_length: length,
                next_header: 17,
                hop_limit,
                source,
                destination,
            };
            let udp = UdpFields {
                source_port: remote.port,
                destination_port: client.port,
                length,
                checksum: udp_sum_ipv6(source, destination, remote.port, client.port, length, payload),
            };
            let t = udp_header_layout(udp) + other;
            lemma_ipv6_layout(fields, t);
            lemma_udp_layout(udp, other);
            lemma_changed_ipv6(source, destination, remote.port, client.port, length, payload, k, v);
            lemma_sum_ipv6_nonzero(source, destination, remote.port, client.port, length, payload);
            assert(changed =~= ipv6_header_layout(fields) + t);
            assert(changed.subrange(40, changed.len() as int) =~= t);
        },
        _ => {},
    }
}

/// A UDP datagram is read exactly off a whole IP packet of either family with UDP right behind its IP header, as long
/// as the UDP header says, with two ports and with the checksum that belongs to it. Only over IPv4 may the checksum be
/// left out. What is read are the addresses and the ports, the hop limit, whether it may be cut, and every octet behind
/// the UDP header.
pub proof fn law_a_datagram_is_read_off_its_packet(s: Seq<u8>)
    requires
        packet_error(s) is None,
    ensures
        ({
            let v4 = s[0] < 0x60;
            let at = if v4 {
                (s[0] - 0x40) * 4
            } else {
                40
            };
            let carried = if v4 {
                s[9] == 17 && s[6] % 64 < 32 && (s[6] % 32) * 256 + s[7] == 0
            } else {
                s[6] == 17
            };
            let payload = s.subrange(at + 8, s.len() as int);
            let sum = if v4 {
                udp_sum_ipv4(
                    be32(s, 12) as u32,
                    be32(s, 16) as u32,
                    be16(s, at) as u16,
                    be16(s, at + 2) as u16,
                    be16(s, at + 4) as u16,
                    payload,
                )
            } else {
                udp_sum_ipv6(
                    be128(s, 8) as u128,
                    be128(s, 24) as u128,
                    be16(s, at) as u16,
                    be16(s, at + 2) as u16,
                    be16(s, at + 4) as u16,
                    payload,
                )
            };
            let r = udp_datagram(s);
            &&& r is Ok <==> {
                &&& carried
                &&& s.len() - at >= 8
                &&& be16(s, at + 4) == s.len() - at
                &&& be16(s, at) != 0
                &&& be16(s, at + 2) != 0
                &&& be16(s, at + 6) == sum && be16(s, at + 6) != 0 || v4 && be16(s, at + 6) == 0
            }
            &&& r is Ok ==> {
                let read = r->Ok_0;
                &&& read.source.port == be16(s, at)
                &&& read.destination.port == be16(s, at + 2)
                &&& read.payload == payload
                &&& read.hop_limit == if v4 {
                    s[8]
                } else {
                    s[7]
                }
                &&& read.dont_fragment == (!v4 || s[6] % 128 >= 64)
                &&& v4 ==> read.source.ip == IpAddr::V4(be32(s, 12) as u32) && read.destination.ip == IpAddr::V4(
                    be32(s, 16) as u32,
                )
                &&& !v4 ==> read.source.ip == IpAddr::V6(be128(s, 8) as u128) && read.destination.ip == IpAddr::V6(
                    be128(s, 24) as u128,
                )
            }
        }),
{
    let at = if s[0] < 0x60 {
        (s[0] - 0x40) * 4
    } else {
        40
    };
    let t = s.subrange(at, s.len() as int);
    law_a_packet_is_as_long_as_it_says(s);
    if s[0] < 0x60 {
        law_where_the_ipv4_fields_stand(s);
    }
    if t.len() >= 8 {
        assert(t[0] == s[at] && t[1] == s[at + 1] && t[2] == s[at + 2] && t[3] == s[at + 3]);
        assert(t[4] == s[at + 4] && t[5] == s[at + 5] && t[6] == s[at + 6] && t[7] == s[at + 7]);
        assert(t.subrange(8, t.len() as int) =~= s.subrange(at + 8, s.len() as int));
    }
}

/// Why a packet holds no UDP datagram: a fragment is said to be one, of either family, and so are packets with an
/// extension before their payload and packets of another transport.
pub proof fn law_why_a_datagram_was_refused(s: Seq<u8>)
    requires
        packet_error(s) is None,
    ensures
        ({
            let r = udp_datagram(s);
            let v4 = s[0] < 0x60;
            let cut = s[6] % 64 >= 32 || (s[6] % 32) * 256 + s[7] != 0;
            &&& r == Err::<Datagram, Reject>(Reject::Fragmented) <==> if v4 {
                s[9] == 17 && cut
            } else {
                s[6] == 44
            }
            &&& r == Err::<Datagram, Reject>(Reject::Extended) ==> !v4
            &&& v4 ==> (r == Err::<Datagram, Reject>(Reject::NotUdp) <==> s[9] != 17)
            &&& !v4 && (s[6] == 6 || s[6] == 58) ==> r == Err::<Datagram, Reject>(Reject::NotUdp)
            &&& !v4 && (s[6] == 0 || s[6] == 43 || s[6] == 60) ==> r == Err::<Datagram, Reject>(Reject::Extended)
        }),
{
    law_a_packet_is_as_long_as_it_says(s);
    if s[0] < 0x60 {
        law_where_the_ipv4_fields_stand(s);
    }
}

/// A UDP checksum over IPv4 is that of the addresses, the transport's number, the length twice, the ports and the
/// payload: with it they sum to a multiple of 65535. It is never zero.
pub proof fn law_what_an_ipv4_udp_checksum_covers(
    source: u32,
    destination: u32,
    source_port: u16,
    destination_port: u16,
    length: u16,
    payload: Seq<u8>,
    covered: Seq<u8>,
)
    requires
        covered == oct4(source as int) + oct4(destination as int) + seq![0u8, 17u8] + oct2(length as int) + oct2(
            source_port as int,
        ) + oct2(destination_port as int) + oct2(length as int) + payload,
    ensures
        udp_sum_ipv4(source, destination, source_port, destination_port, length, payload) != 0,
        (word_sum(covered) + udp_sum_ipv4(source, destination, source_port, destination_port, length, payload)) % 65535
            == 0,
{
    reveal(udp_sum_ipv4);
    law_a_checksum_makes_up_for_its_octets(covered);
}

/// A UDP checksum over IPv6 covers the same as one over IPv4, with the addresses of IPv6.
pub proof fn law_what_an_ipv6_udp_checksum_covers(
    source: u128,
    destination: u128,
    source_port: u16,
    destination_port: u16,
    length: u16,
    payload: Seq<u8>,
    covered: Seq<u8>,
)
    requires
        covered == oct16(source as int) + oct16(destination as int) + seq![0u8, 17u8] + oct2(length as int) + oct2(
            source_port as int,
        ) + oct2(destination_port as int) + oct2(length as int) + payload,
    ensures
        udp_sum_ipv6(source, destination, source_port, destination_port, length, payload) != 0,
        (word_sum(covered) + udp_sum_ipv6(source, destination, source_port, destination_port, length, payload)) % 65535
            == 0,
{
    reveal(udp_sum_ipv6);
    law_a_checksum_makes_up_for_its_octets(covered);
}

/// A reply can be built exactly where the remote and the client are of one family and the payload fits in one datagram
/// of it. The packet holds the payload behind the two headers and nothing else.
pub proof fn law_which_replies_can_be_built(
    remote: SocketAddr,
    client: SocketAddr,
    hop_limit: u8,
    identification: Option<u16>,
    payload: Seq<u8>,
)
    ensures
        ({
            let r = reply_packet(remote, client, hop_limit, identification, payload);
            &&& r is Ok <==> {
                ||| remote.ip is V4 && client.ip is V4 && 20 + 8 + payload.len() <= 65535
                ||| remote.ip is V6 && client.ip is V6 && 8 + payload.len() <= 65535
            }
            &&& r is Ok ==> r->Ok_0.len() == payload.len() + if remote.ip is V6 {
                48int
            } else {
                28
            }
            &&& r is Err ==> r->Err_0 is Malformed
        }),
{
    if reply_packet(remote, client, hop_limit, identification, payload) is Ok {
        match (remote.ip, client.ip) {
            (IpAddr::V4(source), IpAddr::V4(destination)) => {
                lemma_sealed(
                    reply_ipv4_fields(source, destination, hop_limit, identification, payload.len() as int),
                    Seq::empty(),
                );
            },
            (IpAddr::V6(source), IpAddr::V6(destination)) => {
                lemma_oct16_len(source as int);
                lemma_oct16_len(destination as int);
            },
            _ => {},
        }
    }
}

/// A reply over IPv4 carries the identification that was issued for it, and then it may be cut. One that none was
/// issued for may not be. Its header is a plain one for a whole UDP datagram from the remote to the client.
pub proof fn law_a_reply_may_be_cut_where_it_is_identified(
    remote: SocketAddr,
    client: SocketAddr,
    hop_limit: u8,
    identification: Option<u16>,
    payload: Seq<u8>,
)
    requires
        remote.ip is V4,
        client.ip is V4,
        payload.len() <= 65507,
    ensures
        ({
            let header = ipv4_fields(reply_packet(remote, client, hop_limit, identification, payload)->Ok_0);
            &&& identification is Some ==> header.identification == identification->0 && !header.dont_fragment
            &&& identification is None ==> header.identification == 0 && header.dont_fragment
            &&& !header.more_fragments
            &&& header.fragment_offset == 0
            &&& header.header_len == 20
            &&& header.total_len == 28 + payload.len()
            &&& header.time_to_live == hop_limit
            &&& header.protocol == 17
            &&& header.dscp == 0
            &&& header.ecn == 0
            &&& header.source == remote.ip->V4_0
            &&& header.destination == client.ip->V4_0
        }),
{
    let source = remote.ip->V4_0;
    let destination = client.ip->V4_0;
    let packet = reply_packet(remote, client, hop_limit, identification, payload)->Ok_0;
    let fields = reply_ipv4_fields(source, destination, hop_limit, identification, payload.len() as int);
    lemma_sealed(fields, packet.subrange(20, packet.len() as int));
    lemma_sealed(fields, Seq::empty());
    assert(packet =~= ipv4_header_sealed(fields) + packet.subrange(20, packet.len() as int));
}

/// What is wrong with a UDP datagram is told in words: the first thing that is.
pub proof fn law_what_is_wrong_with_a_datagram_is_told(s: Seq<u8>)
    ensures
        packet_error(s) is Some ==> udp_datagram(s) == Err::<Datagram, Reject>(
            Reject::Malformed(packet_error(s)->0.text()),
        ),
        packet_error(s) is None && (if s[0] < 0x60 {
            s[9] == 17 && s[6] % 64 < 32 && (s[6] % 32) * 256 + s[7] == 0
        } else {
            s[6] == 17
        }) ==> {
            let at = if s[0] < 0x60 {
                (s[0] - 0x40) * 4
            } else {
                40
            };
            let n = s.len() - at;
            let r = udp_datagram(s);
            &&& n < 8 ==> r == Err::<Datagram, Reject>(Reject::Malformed("UDP header does not fit"))
            &&& n >= 8 && be16(s, at + 4) != n ==> r == Err::<Datagram, Reject>(
                Reject::Malformed("UDP length disagrees"),
            )
            &&& n >= 8 && be16(s, at + 4) == n && (be16(s, at) == 0 || be16(s, at + 2) == 0) ==> r == Err::<
                Datagram,
                Reject,
            >(Reject::Malformed("UDP port 0"))
            &&& n >= 8 && be16(s, at + 4) == n && be16(s, at) != 0 && be16(s, at + 2) != 0 && r is Err && s[0] < 0x60
                ==> r == Err::<Datagram, Reject>(Reject::Malformed("IPv4 UDP checksum mismatch"))
            &&& n >= 8 && be16(s, at + 4) == n && be16(s, at) != 0 && be16(s, at + 2) != 0 && r is Err && s[0] >= 0x60
                ==> r == Err::<Datagram, Reject>(
                Reject::Malformed(
                    if be16(s, at + 6) == 0 {
                        "IPv6 UDP checksum absent"
                    } else {
                        "IPv6 UDP checksum mismatch"
                    },
                ),
            )
        },
{
    if packet_error(s) is None {
        let at = if s[0] < 0x60 {
            (s[0] - 0x40) * 4
        } else {
            40
        };
        let t = s.subrange(at, s.len() as int);
        law_a_packet_is_as_long_as_it_says(s);
        if s[0] < 0x60 {
            law_where_the_ipv4_fields_stand(s);
        }
        if t.len() >= 8 {
            assert(t[0] == s[at] && t[1] == s[at + 1] && t[2] == s[at + 2] && t[3] == s[at + 3]);
            assert(t[4] == s[at + 4] && t[5] == s[at + 5] && t[6] == s[at + 6] && t[7] == s[at + 7]);
        }
    }
}

/// Why there can be no reply is told in words: it would cross families, or is too long for its own.
pub proof fn law_why_there_is_no_reply_is_told(
    remote: SocketAddr,
    client: SocketAddr,
    hop_limit: u8,
    identification: Option<u16>,
    payload: Seq<u8>,
)
    ensures
        ({
            let r = reply_packet(remote, client, hop_limit, identification, payload);
            &&& (remote.ip is V4) != (client.ip is V4) ==> r == Err::<Seq<u8>, WriterError>(
                WriterError::Malformed("reply crosses address families"),
            )
            &&& remote.ip is V4 && client.ip is V4 && payload.len() > 65_507 ==> r == Err::<Seq<u8>, WriterError>(
                WriterError::Malformed("reply exceeds an IPv4 datagram"),
            )
            &&& remote.ip is V6 && client.ip is V6 && payload.len() > 65_527 ==> r == Err::<Seq<u8>, WriterError>(
                WriterError::Malformed("reply exceeds an IPv6 datagram"),
            )
        }),
{
}

} // verus!
