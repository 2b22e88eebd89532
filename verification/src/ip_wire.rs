//! Splits a packet into its IP header and payload, refusing one whose lengths disagree.
use vstd::prelude::*;

use crate::octets::{
    be128, be16, be32, law_read_back_u128, law_read_back_u16, law_read_back_u32, lemma_oct16_len, oct16, oct2,
    oct4,
};

verus! {

/// What an IPv4 header says.
#[derive(Clone, Copy, Debug)]
pub struct Ipv4Fields {
    pub header_len: usize,
    pub dscp: u8,
    pub ecn: u8,
    pub total_len: u16,
    pub identification: u16,
    pub dont_fragment: bool,
    pub more_fragments: bool,
    /// In units of eight octets.
    pub fragment_offset: u16,
    pub time_to_live: u8,
    pub protocol: u8,
    pub source: u32,
    pub destination: u32,
}

/// What an IPv6 header says.
#[derive(Clone, Copy, Debug)]
pub struct Ipv6Fields {
    pub payload_length: u16,
    pub next_header: u8,
    pub hop_limit: u8,
    pub source: u128,
    pub destination: u128,
}

/// Why a packet is not one IP datagram.
#[derive(Clone, Copy, Debug, PartialEq, Eq)]
pub enum Error {
    Ipv4Header,
    Ipv4Length,
    Ipv6Header,
    Ipv6Length,
    NotIp,
}

impl Error {
    pub open spec fn text(self) -> &'static str {
        match self {
            Error::Ipv4Header => "IPv4 header does not fit",
            Error::Ipv4Length => "IPv4 total length disagrees",
            Error::Ipv6Header => "IPv6 header does not fit",
            Error::Ipv6Length => "IPv6 payload length disagrees",
            Error::NotIp => "not an IPv4 or IPv6 packet",
        }
    }

    /// The error in words.
    pub fn message(self) -> (r: &'static str)
        ensures
            r == self.text(),
    {
        match self {
            Error::Ipv4Header => "IPv4 header does not fit",
            Error::Ipv4Length => "IPv4 total length disagrees",
            Error::Ipv6Header => "IPv6 header does not fit",
            Error::Ipv6Length => "IPv6 payload length disagrees",
            Error::NotIp => "not an IPv4 or IPv6 packet",
        }
    }
}

/// One datagram, split.
#[allow(inconsistent_fields)]
pub enum Packet<'a> {
    Ipv4 { header: Ipv4Fields, payload: &'a [u8] },
    Ipv6 { header: Ipv6Fields, payload: &'a [u8] },
}

/// Whether `s` starts with a whole IPv4 header.
pub open spec fn ipv4_header_fits(s: Seq<u8>) -> bool {
    &&& s.len() >= 20
    &&& s[0] / 16 == 4
    &&& s[0] % 16 >= 5
    &&& s.len() >= (s[0] % 16) * 4
}

/// Whether `s` starts with a whole IPv6 header.
pub open spec fn ipv6_header_fits(s: Seq<u8>) -> bool {
    s.len() >= 40 && s[0] / 16 == 6
}

/// The fields of the IPv4 header at the start of `s`.
pub open spec fn ipv4_fields(s: Seq<u8>) -> Ipv4Fields {
    Ipv4Fields {
        header_len: ((s[0] % 16) * 4) as usize,
        dscp: s[1] / 4,
        ecn: s[1] % 4,
        total_len: be16(s, 2) as u16,
        identification: be16(s, 4) as u16,
        dont_fragment: (s[6] / 64) % 2 == 1,
        more_fragments: (s[6] / 32) % 2 == 1,
        fragment_offset: (be16(s, 6) % 8192) as u16,
        time_to_live: s[8],
        protocol: s[9],
        source: be32(s, 12) as u32,
        destination: be32(s, 16) as u32,
    }
}

/// The fields of the IPv6 header at the start of `s`.
pub open spec fn ipv6_fields(s: Seq<u8>) -> Ipv6Fields {
    Ipv6Fields {
        payload_length: be16(s, 4) as u16,
        next_header: s[6],
        hop_limit: s[7],
        source: be128(s, 8) as u128,
        destination: be128(s, 24) as u128,
    }
}

/// Why `s` is not one datagram, if it is not.
pub open spec fn packet_error(s: Seq<u8>) -> Option<Error> {
    if s.len() == 0 {
        Some(Error::NotIp)
    } else if s[0] / 16 == 4 {
        if !ipv4_header_fits(s) {
            Some(Error::Ipv4Header)
        } else if be16(s, 2) != s.len() {
            Some(Error::Ipv4Length)
        } else {
            None
        }
    } else if s[0] / 16 == 6 {
        if !ipv6_header_fits(s) {
            Some(Error::Ipv6Header)
        } else if be16(s, 4) + 40 != s.len() {
            Some(Error::Ipv6Length)
        } else {
            None
        }
    } else {
        Some(Error::NotIp)
    }
}

/// The header at the start of an IPv4 packet.
///
/// Calls `etherparse::Ipv4HeaderSlice::from_slice`, which takes exactly the slices that hold a whole
/// version-four header, and reads the fields off it.
#[verifier::external_body]
pub(crate) fn ipv4_header(packet: &[u8]) -> (r: Option<Ipv4Fields>)
    ensures
        r == (if ipv4_header_fits(packet@) { Some(ipv4_fields(packet@)) } else { None }),
{
    let header = etherparse::Ipv4HeaderSlice::from_slice(packet).ok()?;
    Some(Ipv4Fields {
        header_len: header.slice().len(),
        dscp: header.dcp().value(),
        ecn: header.ecn().value(),
        total_len: header.total_len(),
        identification: header.identification(),
        dont_fragment: header.dont_fragment(),
        more_fragments: header.more_fragments(),
        fragment_offset: header.fragments_offset().value(),
        time_to_live: header.ttl(),
        protocol: header.protocol().0,
        source: u32::from_be_bytes(header.source()),
        destination: u32::from_be_bytes(header.destination()),
    })
}

/// The header at the start of an IPv6 packet.
///
/// Calls `etherparse::Ipv6HeaderSlice::from_slice`, which takes exactly the slices that hold a whole
/// version-six header, and reads the fields off it.
#[verifier::external_body]
pub(crate) fn ipv6_header(packet: &[u8]) -> (r: Option<Ipv6Fields>)
    ensures
        r == (if ipv6_header_fits(packet@) { Some(ipv6_fields(packet@)) } else { None }),
{
    let header = etherparse::Ipv6HeaderSlice::from_slice(packet).ok()?;
    Some(Ipv6Fields {
        payload_length: header.payload_length(),
        next_header: header.next_header().0,
        hop_limit: header.hop_limit(),
        source: u128::from_be_bytes(header.source()),
        destination: u128::from_be_bytes(header.destination()),
    })
}

/// An IPv4 header without options, laid out.
pub open spec fn ipv4_header_layout(fields: Ipv4Fields, checksum: u16) -> Seq<u8> {
    let flags = fields.fragment_offset + (if fields.dont_fragment { 0x4000int } else { 0 }) + (
    if fields.more_fragments { 0x2000int } else { 0 });
    seq![0x45u8, (fields.dscp * 4 + fields.ecn) as u8] + oct2(fields.total_len as int) + oct2(
        fields.identification as int,
    ) + oct2(flags) + seq![fields.time_to_live, fields.protocol] + oct2(checksum as int) + oct4(
        fields.source as int,
    ) + oct4(fields.destination as int)
}

/// The octets of an IPv4 header without options.
///
/// Calls `etherparse::Ipv4Header::to_bytes`, which lays the fields out in order. `header_len` is not read.
#[verifier::external_body]
pub(crate) fn ipv4_header_bytes(fields: &Ipv4Fields, checksum: u16) -> (r: Vec<u8>)
    requires
        fields.dscp < 64,
        fields.ecn < 4,
        fields.fragment_offset < 8192,
    ensures
        r@ == ipv4_header_layout(*fields, checksum),
{
    let mut header = etherparse::Ipv4Header::default();
    header.dscp = fields.dscp.try_into().unwrap();
    header.ecn = fields.ecn.try_into().unwrap();
    header.total_len = fields.total_len;
    header.identification = fields.identification;
    header.dont_fragment = fields.dont_fragment;
    header.more_fragments = fields.more_fragments;
    header.fragment_offset = fields.fragment_offset.try_into().unwrap();
    header.time_to_live = fields.time_to_live;
    header.protocol = etherparse::IpNumber(fields.protocol);
    header.header_checksum = checksum;
    header.source = fields.source.to_be_bytes();
    header.destination = fields.destination.to_be_bytes();
    header.to_bytes().to_vec()
}

/// A laid out IPv4 header reads back as its fields.
pub proof fn lemma_ipv4_layout(fields: Ipv4Fields, checksum: u16, rest: Seq<u8>)
    requires
        fields.dscp < 64,
        fields.ecn < 4,
        fields.fragment_offset < 8192,
        fields.header_len == 20,
    ensures
        ({
            let s = ipv4_header_layout(fields, checksum) + rest;
            &&& s.len() == 20 + rest.len()
            &&& s[0] == 0x45
            &&& s[6] < 128
            &&& ipv4_header_fits(s)
            &&& ipv4_fields(s) == fields
            &&& be16(s, 2) == fields.total_len
            &&& s.subrange(20, s.len() as int) == rest
        }),
{
    let s = ipv4_header_layout(fields, checksum) + rest;
    let flags = fields.fragment_offset + (if fields.dont_fragment { 0x4000int } else { 0 }) + (
    if fields.more_fragments { 0x2000int } else { 0 });
    assert(s.subrange(2, 4) =~= oct2(fields.total_len as int));
    assert(s.subrange(4, 6) =~= oct2(fields.identification as int));
    assert(s.subrange(6, 8) =~= oct2(flags));
    assert(s.subrange(12, 16) =~= oct4(fields.source as int));
    assert(s.subrange(16, 20) =~= oct4(fields.destination as int));
    law_read_back_u16(s, 2, fields.total_len as int);
    law_read_back_u16(s, 4, fields.identification as int);
    law_read_back_u16(s, 6, flags);
    law_read_back_u32(s, 12, fields.source as int);
    law_read_back_u32(s, 16, fields.destination as int);
    assert(s.subrange(20, s.len() as int) =~= rest);
    assert(s[6] == s.subrange(6, 8)[0]);
}

/// A laid out IPv6 header reads back as its fields.
pub proof fn lemma_ipv6_layout(fields: Ipv6Fields, rest: Seq<u8>)
    ensures
        ({
            let s = ipv6_header_layout(fields) + rest;
            &&& s.len() == 40 + rest.len()
            &&& s[0] == 0x60
            &&& ipv6_header_fits(s)
            &&& ipv6_fields(s) == fields
            &&& be16(s, 4) == fields.payload_length
            &&& s.subrange(40, s.len() as int) == rest
        }),
{
    let s = ipv6_header_layout(fields) + rest;
    assert(s.subrange(4, 6) =~= oct2(fields.payload_length as int));
    lemma_oct16_len(fields.source as int);
    lemma_oct16_len(fields.destination as int);
    assert(s.subrange(8, 24) =~= oct16(fields.source as int));
    assert(s.subrange(24, 40) =~= oct16(fields.destination as int));
    law_read_back_u16(s, 4, fields.payload_length as int);
    law_read_back_u128(s, 8, fields.source as int);
    law_read_back_u128(s, 24, fields.destination as int);
    assert(s.subrange(40, s.len() as int) =~= rest);
}

/// An IPv6 header without traffic class and flow label, laid out.
pub open spec fn ipv6_header_layout(fields: Ipv6Fields) -> Seq<u8> {
    seq![0x60u8, 0u8, 0u8, 0u8] + oct2(fields.payload_length as int) + seq![
        fields.next_header,
        fields.hop_limit,
    ] + oct16(fields.source as int) + oct16(fields.destination as int)
}

/// The octets of an IPv6 header without traffic class and flow label.
///
/// Calls `etherparse::Ipv6Header::to_bytes`, which lays the fields out in order.
#[verifier::external_body]
pub(crate) fn ipv6_header_bytes(fields: &Ipv6Fields) -> (r: Vec<u8>)
    ensures
        r@ == ipv6_header_layout(*fields),
{
    let mut header = etherparse::Ipv6Header::default();
    header.payload_length = fields.payload_length;
    header.next_header = etherparse::IpNumber(fields.next_header);
    header.hop_limit = fields.hop_limit;
    header.source = fields.source.to_be_bytes();
    header.destination = fields.destination.to_be_bytes();
    header.to_bytes().to_vec()
}

impl<'a> Packet<'a> {
    /// Splits a packet whose lengths agree with its size.
    pub fn parse(packet: &'a [u8]) -> (r: Result<Packet<'a>, Error>)
        ensures
            match r {
                Err(e) => packet_error(packet@) == Some(e),
                Ok(Packet::Ipv4 { header, payload }) => {
                    &&& packet_error(packet@) is None
                    &&& packet@[0] / 16 == 4
                    &&& header == ipv4_fields(packet@)
                    &&& payload@ == packet@.subrange(header.header_len as int, packet@.len() as int)
                },
                Ok(Packet::Ipv6 { header, payload }) => {
                    &&& packet_error(packet@) is None
                    &&& packet@[0] / 16 == 6
                    &&& header == ipv6_fields(packet@)
                    &&& payload@ == packet@.subrange(40, packet@.len() as int)
                },
            },
    {
        if packet.len() == 0 {
            return Err(Error::NotIp);
        }
        let version: u8 = packet[0] / 16;
        if version == 4 {
            match ipv4_header(packet) {
                None => Err(Error::Ipv4Header),
                Some(header) => {
                    if header.total_len as usize != packet.len() {
                        Err(Error::Ipv4Length)
                    } else {
                        let payload = vstd::slice::slice_subrange(
                            packet,
                            header.header_len,
                            packet.len(),
                        );
                        Ok(Packet::Ipv4 { header, payload })
                    }
                },
            }
        } else if version == 6 {
            match ipv6_header(packet) {
                None => Err(Error::Ipv6Header),
                Some(header) => {
                    if header.payload_length as usize + 40 != packet.len() {
                        Err(Error::Ipv6Length)
                    } else {
                        let payload = vstd::slice::slice_subrange(packet, 40, packet.len());
                        Ok(Packet::Ipv6 { header, payload })
                    }
                },
            }
        } else {
            Err(Error::NotIp)
        }
    }
}

/// What follows an IPv6 header, seen by an owner of one transport.
#[derive(Clone, Copy, Debug, PartialEq, Eq)]
pub enum Ipv6Payload {
    Transport,
    Fragment,
    Extension,
    Other,
}

/// The next-header numbers that announce an IPv6 extension header.
pub open spec fn is_extension(next_header: u8) -> bool {
    ||| next_header == 0
    ||| next_header == 43
    ||| next_header == 44
    ||| next_header == 50
    ||| next_header == 51
    ||| next_header == 60
    ||| next_header == 135
    ||| next_header == 139
    ||| next_header == 140
    ||| next_header == 253
    ||| next_header == 254
}

/// Whether a next-header number announces an extension header.
///
/// Calls `etherparse::IpNumber::is_ipv6_ext_header_value`, which names exactly these numbers.
#[verifier::external_body]
fn extension(next_header: u8) -> (r: bool)
    ensures
        r == is_extension(next_header),
{
    etherparse::IpNumber(next_header).is_ipv6_ext_header_value()
}

/// What an IPv6 next-header number means to the owner of transport `wanted`.
pub open spec fn ipv6_payload_kind(next_header: u8, wanted: u8) -> Ipv6Payload {
    if next_header == wanted {
        Ipv6Payload::Transport
    } else if next_header == 44 {
        Ipv6Payload::Fragment
    } else if is_extension(next_header) {
        Ipv6Payload::Extension
    } else {
        Ipv6Payload::Other
    }
}

/// What an IPv6 next-header number means to the owner of transport `wanted`.
pub fn ipv6_payload(next_header: u8, wanted: u8) -> (r: Ipv6Payload)
    ensures
        r == ipv6_payload_kind(next_header, wanted),
{
    if next_header == wanted {
        Ipv6Payload::Transport
    } else if next_header == 44 {
        Ipv6Payload::Fragment
    } else if extension(next_header) {
        Ipv6Payload::Extension
    } else {
        Ipv6Payload::Other
    }
}

/// A packet is an IP packet exactly where it is as long as it says: an IPv4 packet with at least the header that its
/// first octet asks for, or an IPv6 packet with its fixed header.
pub proof fn law_a_packet_is_as_long_as_it_says(s: Seq<u8>)
    ensures
        packet_error(s) is None <==> {
            ||| s.len() >= 20 && 0x45 <= s[0] <= 0x4f && s.len() >= (s[0] - 0x40) * 4 && s[2] * 256 + s[3] == s.len()
            ||| s.len() >= 40 && 0x60 <= s[0] <= 0x6f && s[4] * 256 + s[5] + 40 == s.len()
        },
        packet_error(s) == Some(Error::NotIp) <==> s.len() == 0 || s[0] < 0x40 || 0x4f < s[0] < 0x60 || s[0] > 0x6f,
        packet_error(s) == Some(Error::Ipv4Length) ==> 0x45 <= s[0] <= 0x4f && s.len() >= 20,
        packet_error(s) == Some(Error::Ipv4Header) ==> 0x40 <= s[0] <= 0x4f,
        packet_error(s) == Some(Error::Ipv6Length) ==> 0x60 <= s[0] <= 0x6f && s.len() >= 40,
        packet_error(s) == Some(Error::Ipv6Header) <==> 0 < s.len() < 40 && 0x60 <= s[0] <= 0x6f,
        s.len() > 0 && 0x40 <= s[0] <= 0x4f && (s.len() < 20 || s[0] < 0x45 || s.len() < (s[0] - 0x40) * 4)
            <==> packet_error(s) == Some(Error::Ipv4Header),
{
}

/// What is read of an IPv4 header, octet by octet.
pub proof fn law_where_the_ipv4_fields_stand(s: Seq<u8>)
    requires
        s.len() >= 20,
        0x40 <= s[0] <= 0x4f,
    ensures
        ({
            let fields = ipv4_fields(s);
            &&& fields.header_len == (s[0] - 0x40) * 4
            &&& fields.dscp * 4 + fields.ecn == s[1]
            &&& fields.ecn < 4
            &&& fields.total_len == s[2] * 256 + s[3]
            &&& fields.identification == s[4] * 256 + s[5]
            &&& fields.dont_fragment <==> s[6] % 128 >= 64
            &&& fields.more_fragments <==> s[6] % 64 >= 32
            &&& fields.fragment_offset == (s[6] % 32) * 256 + s[7]
            &&& fields.time_to_live == s[8]
            &&& fields.protocol == s[9]
            &&& fields.source == s[12] * 16_777_216 + s[13] * 65_536 + s[14] * 256 + s[15]
            &&& fields.destination == s[16] * 16_777_216 + s[17] * 65_536 + s[18] * 256 + s[19]
        }),
{
    let high: int = s[6] as int;
    assert((high * 256 + s[7]) % 8192 == (high % 32) * 256 + s[7]);
}

/// What is read of an IPv6 header, octet by octet.
pub proof fn law_where_the_ipv6_fields_stand(s: Seq<u8>)
    requires
        s.len() >= 40,
    ensures
        ({
            let fields = ipv6_fields(s);
            &&& fields.payload_length == s[4] * 256 + s[5]
            &&& fields.next_header == s[6]
            &&& fields.hop_limit == s[7]
            &&& fields.source == be128(s, 8)
            &&& fields.destination == be128(s, 24)
        }),
{
    crate::octets::lemma_be_bounds(s, 8);
    crate::octets::lemma_be_bounds(s, 24);
}

/// An IPv6 packet's payload is the owner's where it is the transport asked for. A fragment is never taken for an
/// extension, and a transport that was not asked for is neither.
pub proof fn law_what_follows_an_ipv6_header(next_header: u8, wanted: u8)
    ensures
        ipv6_payload_kind(next_header, wanted) is Transport <==> next_header == wanted,
        next_header != wanted ==> (ipv6_payload_kind(next_header, wanted) is Fragment <==> next_header == 44),
        next_header != wanted ==> (ipv6_payload_kind(next_header, wanted) is Extension <==> set![
            0u8,
            43u8,
            50u8,
            51u8,
            60u8,
            135u8,
            139u8,
            140u8,
            253u8,
            254u8,
        ].contains(next_header)),
{
}

/// A header that is laid out reads back as the fields it was made of, with no options and no flow label, and what follows
/// it is the payload.
pub proof fn law_headers_read_back(v4: Ipv4Fields, checksum: u16, v6: Ipv6Fields, rest: Seq<u8>)
    requires
        v4.dscp < 64,
        v4.ecn < 4,
        v4.fragment_offset < 8192,
        v4.header_len == 20,
    ensures
        ipv4_fields(ipv4_header_layout(v4, checksum) + rest) == v4,
        be16(ipv4_header_layout(v4, checksum) + rest, 10) == checksum,
        v4.total_len == 20 + rest.len() ==> packet_error(ipv4_header_layout(v4, checksum) + rest) is None,
        (ipv4_header_layout(v4, checksum) + rest)[0] == 0x45,
        ipv6_fields(ipv6_header_layout(v6) + rest) == v6,
        (ipv6_header_layout(v6) + rest)[0] == 0x60,
        (ipv6_header_layout(v6) + rest)[1] == 0,
        (ipv6_header_layout(v6) + rest)[2] == 0,
        (ipv6_header_layout(v6) + rest)[3] == 0,
        v6.payload_length == rest.len() ==> packet_error(ipv6_header_layout(v6) + rest) is None,
{
    lemma_ipv4_layout(v4, checksum, rest);
    lemma_ipv6_layout(v6, rest);
    let s = ipv4_header_layout(v4, checksum) + rest;
    assert(s.subrange(10, 12) =~= oct2(checksum as int));
    law_read_back_u16(s, 10, checksum as int);
}

/// Why a packet is no IP packet is told in words.
pub proof fn law_why_a_packet_is_none_is_told()
    ensures
        Error::Ipv4Header.text() == "IPv4 header does not fit",
        Error::Ipv4Length.text() == "IPv4 total length disagrees",
        Error::Ipv6Header.text() == "IPv6 header does not fit",
        Error::Ipv6Length.text() == "IPv6 payload length disagrees",
        Error::NotIp.text() == "not an IPv4 or IPv6 packet",
{
}

} // verus!
