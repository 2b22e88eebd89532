//! Router Advertisements: the prefix, MTU and DNS server that clients are told.
use vstd::arithmetic::power2::pow2;
use vstd::prelude::*;

use crate::octets::{
    be128, be16, be32, law_read_back_u128, law_read_back_u16, law_read_back_u32, lemma_oct16_len, oct16, oct2, oct4,
    push_all, push_u128, push_u16, push_u32,
};

verus! {

/// The NDP option type of a recursive DNS server.
pub const RDNSS_OPTION_TYPE: u8 = 25;

/// The NDP option type of an MTU.
pub const MTU_OPTION_TYPE: u8 = 5;

/// The size of a recursive DNS server option with one address, in units of eight octets.
pub const RDNSS_OPTION_LENGTH_UNITS: u8 = 3;

/// An IPv6 address within a prefix.
#[derive(Clone, Copy, Debug, PartialEq, Eq)]
pub struct Ipv6Inet {
    address: u128,
    network_length: u8,
}

impl Ipv6Inet {
    pub closed spec fn spec_address(self) -> u128 {
        self.address
    }

    pub closed spec fn spec_length(self) -> u8 {
        self.network_length
    }

    /// The prefix is no longer than an address.
    pub open spec fn wf(self) -> bool {
        self.spec_length() <= 128
    }

    /// An address and the length of its prefix, unless the prefix is longer than an address.
    pub fn new(address: u128, network_length: u8) -> (r: Option<Self>)
        ensures
            r is Some == (network_length <= 128),
            r matches Some(inet) ==> inet.wf() && inet.spec_address() == address && inet.spec_length()
                == network_length,
    {
        if network_length > 128 {
            None
        } else {
            Some(Ipv6Inet { address, network_length })
        }
    }

    /// The address itself.
    pub fn address(&self) -> (r: u128)
        ensures
            r == self.spec_address(),
    {
        self.address
    }

    /// The length of the prefix.
    pub fn network_length(&self) -> (r: u8)
        ensures
            r == self.spec_length(),
    {
        self.network_length
    }

    /// The first address of the prefix.
    pub fn first_address(&self) -> (r: u128)
        requires
            self.wf(),
        ensures
            r == first_of(self.spec_address(), self.spec_length()),
    {
        network_first_address(self.address, self.network_length)
    }
}

/// The first address of the prefix of `length` bits that holds `address`.
pub open spec fn first_of(address: u128, length: u8) -> int {
    address - (address as int) % (pow2((128 - length) as nat) as int)
}

/// The first address of the prefix that holds an address.
///
/// Calls `cidr::Ipv6Inet::network` and `first_address`, which clear every bit behind the prefix.
#[verifier::external_body]
fn network_first_address(address: u128, length: u8) -> (r: u128)
    requires
        length <= 128,
    ensures
        r == first_of(address, length),
{
    cidr::Ipv6Inet::new(address.into(), length).unwrap().network().first_address().into()
}

/// An octet with two flags in its highest bits.
pub open spec fn flags(first: bool, second: bool) -> u8 {
    ((if first { 0x80int } else { 0 }) + (if second { 0x40int } else { 0 })) as u8
}

/// A Router Advertisement's first eight octets: type, code and checksum, then the hop limit, whether addresses and
/// anything else are configured by other means, and the router lifetime.
pub open spec fn advertisement_header(cur_hop_limit: u8, managed: bool, other: bool, router_lifetime: u16) -> Seq<u8> {
    seq![134u8, 0u8, 0u8, 0u8, cur_hop_limit, flags(managed, other)] + oct2(router_lifetime as int)
}

/// A Router Advertisement's two timers.
pub open spec fn advertisement_timers(reachable_time: u32, retrans_timer: u32) -> Seq<u8> {
    oct4(reachable_time as int) + oct4(retrans_timer as int)
}

/// The option of a prefix: whether it is on the link, and whether it may be used for address configuration.
pub open spec fn prefix_option(
    prefix_length: u8,
    on_link: bool,
    autonomous: bool,
    valid_lifetime: u32,
    preferred_lifetime: u32,
    prefix: u128,
) -> Seq<u8> {
    seq![3u8, 4u8, prefix_length, flags(on_link, autonomous)] + oct4(valid_lifetime as int)
        + oct4(preferred_lifetime as int)
        + oct4(0) + oct16(prefix as int)
}

/// The octets of a Router Advertisement's ICMPv6 header.
///
/// Calls `etherparse::Icmpv6Header::to_bytes`: the type, code and checksum, all but the type zero, then the
/// hop limit, the flags and the router lifetime.
#[verifier::external_body]
fn router_advertisement_header(
    cur_hop_limit: u8,
    managed_address_config: bool,
    other_config: bool,
    router_lifetime: u16,
) -> (r: Vec<u8>)
    ensures
        r@ == advertisement_header(cur_hop_limit, managed_address_config, other_config, router_lifetime),
{
    let header = etherparse::icmpv6::RouterAdvertisementHeader {
        cur_hop_limit,
        managed_address_config,
        other_config,
        router_lifetime,
    };
    etherparse::Icmpv6Header::new(etherparse::Icmpv6Type::RouterAdvertisement(header)).to_bytes().to_vec()
}

/// The octets of a Router Advertisement's fixed part.
///
/// Calls `etherparse::icmpv6::RouterAdvertisementPayload::to_bytes`, which lays the two timers out in order.
#[verifier::external_body]
fn router_advertisement_payload(reachable_time: u32, retrans_timer: u32) -> (r: Vec<u8>)
    ensures
        r@ == advertisement_timers(reachable_time, retrans_timer),
{
    let payload = etherparse::icmpv6::RouterAdvertisementPayload { reachable_time, retrans_timer };
    payload.to_bytes().to_vec()
}

/// The octets of a prefix option.
///
/// Calls `etherparse::icmpv6::PrefixInformation::to_bytes`, which lays the option out in order.
#[verifier::external_body]
fn prefix_information(
    prefix_length: u8,
    on_link: bool,
    autonomous_address_configuration: bool,
    valid_lifetime: u32,
    preferred_lifetime: u32,
    prefix: u128,
) -> (r: Vec<u8>)
    ensures
        r@ == prefix_option(
            prefix_length,
            on_link,
            autonomous_address_configuration,
            valid_lifetime,
            preferred_lifetime,
            prefix,
        ),
{
    let option = etherparse::icmpv6::PrefixInformation {
        prefix_length,
        on_link,
        autonomous_address_configuration,
        valid_lifetime,
        preferred_lifetime,
        prefix: prefix.to_be_bytes(),
    };
    option.to_bytes().to_vec()
}

/// The octets of an NDP option's header.
///
/// Calls `etherparse::icmpv6::NdpOptionHeader::to_bytes`: the type, then the length.
#[verifier::external_body]
fn option_header(option_type: u8, length_units: u8) -> (r: Vec<u8>)
    ensures
        r@ == seq![option_type, length_units],
{
    let option_type = etherparse::icmpv6::NdpOptionType(option_type);
    etherparse::icmpv6::NdpOptionHeader { option_type, length_units }.to_bytes().to_vec()
}

/// What one Router Advertisement says.
pub struct RaAdvertisement {
    pub dns_server: u128,
    pub advertised_prefix: Ipv6Inet,
    pub mtu: u32,
    pub router_lifetime: u16,
    pub valid_lifetime: u32,
    pub preferred_lifetime: u32,
    pub rdnss_lifetime: u32,
}

impl RaAdvertisement {
    /// The message, without its checksum.
    pub open spec fn octets(self) -> Seq<u8> {
        advertisement_header(64, false, false, self.router_lifetime) + advertisement_timers(0, 0) + prefix_option(
            self.advertised_prefix.spec_length(),
            true,
            true,
            self.valid_lifetime,
            self.preferred_lifetime,
            first_of(
                self.advertised_prefix.spec_address(),
                self.advertised_prefix.spec_length(),
            ) as u128,
        ) + seq![5u8, 1u8] + oct2(0) + oct4(self.mtu as int) + seq![25u8, 3u8] + oct2(0) + oct4(
            self.rdnss_lifetime as int,
        ) + oct16(self.dns_server as int)
    }

    /// Lays the message out.
    pub fn encode(self) -> (r: Vec<u8>)
        requires
            self.advertised_prefix.wf(),
        ensures
            r@ == self.octets(),
    {
        let mut packet = router_advertisement_header(64, false, false, self.router_lifetime);
        let payload = router_advertisement_payload(0, 0);
        push_all(&mut packet, payload.as_slice());
        let prefix = prefix_information(
            self.advertised_prefix.network_length(),
            true,
            true,
            self.valid_lifetime,
            self.preferred_lifetime,
            self.advertised_prefix.first_address(),
        );
        push_all(&mut packet, prefix.as_slice());
        let mtu = option_header(MTU_OPTION_TYPE, 1);
        push_all(&mut packet, mtu.as_slice());
        push_u16(&mut packet, 0);
        push_u32(&mut packet, self.mtu);
        let rdnss = option_header(RDNSS_OPTION_TYPE, RDNSS_OPTION_LENGTH_UNITS);
        push_all(&mut packet, rdnss.as_slice());
        push_u16(&mut packet, 0);
        push_u32(&mut packet, self.rdnss_lifetime);
        push_u128(&mut packet, self.dns_server);
        packet
    }
}

/// Every advertisement has the same size.
pub proof fn law_advertisement_size(ra: RaAdvertisement)
    ensures
        ra.octets().len() == 80,
{
    assert(advertisement_header(64, false, false, ra.router_lifetime).len() == 8);
    assert(advertisement_timers(0, 0).len() == 8);
    let prefix = first_of(ra.advertised_prefix.spec_address(), ra.advertised_prefix.spec_length()) as u128;
    lemma_oct16_len(prefix as int);
    lemma_oct16_len(ra.dns_server as int);
    assert(prefix_option(
        ra.advertised_prefix.spec_length(),
        true,
        true,
        ra.valid_lifetime,
        ra.preferred_lifetime,
        prefix,
    ).len() == 32);
}

/// The advertisement of a current prefix, with the gateway as router and DNS server.
pub open spec fn current_ra(gateway: Ipv6Inet, mtu: u32) -> RaAdvertisement {
    RaAdvertisement {
        dns_server: gateway.spec_address(),
        advertised_prefix: gateway,
        mtu,
        router_lifetime: 1800,
        valid_lifetime: 3600,
        preferred_lifetime: 1800,
        rdnss_lifetime: 600,
    }
}

/// The advertisement that withdraws a prefix and its DNS server.
pub open spec fn zero_lifetime_ra(prefix: Ipv6Inet, mtu: u32, keep_router: bool) -> RaAdvertisement {
    RaAdvertisement {
        dns_server: prefix.spec_address(),
        advertised_prefix: prefix,
        mtu,
        router_lifetime: if keep_router { 1800 } else { 0 },
        valid_lifetime: 0,
        preferred_lifetime: 0,
        rdnss_lifetime: 0,
    }
}

/// Builds the advertisement of a current prefix.
pub fn make_current_ra_packet(gateway: Ipv6Inet, mtu: u32) -> (r: Vec<u8>)
    requires
        gateway.wf(),
    ensures
        r@ == current_ra(gateway, mtu).octets(),
{
    RaAdvertisement {
        dns_server: gateway.address(),
        advertised_prefix: gateway,
        mtu,
        router_lifetime: 1800,
        valid_lifetime: 3600,
        preferred_lifetime: 1800,
        rdnss_lifetime: 600,
    }.encode()
}

/// Builds the advertisement that withdraws a prefix, and the router with it unless another prefix keeps it.
pub fn make_zero_lifetime_ra_packet(prefix: Ipv6Inet, mtu: u32, keep_router: bool) -> (r: Vec<u8>)
    requires
        prefix.wf(),
    ensures
        r@ == zero_lifetime_ra(prefix, mtu, keep_router).octets(),
{
    RaAdvertisement {
        dns_server: prefix.address(),
        advertised_prefix: prefix,
        mtu,
        router_lifetime: if keep_router { 1800 } else { 0 },
        valid_lifetime: 0,
        preferred_lifetime: 0,
        rdnss_lifetime: 0,
    }.encode()
}

/// Two to the power of what follows the ten bits of the link-local prefix.
pub const LINK_LOCAL_UNIT: u128 = 0x40_0000_0000_0000_0000_0000_0000_0000;

/// Whether an address is a unicast link-local one: its first ten bits are those of `fe80::`.
pub fn is_router_link_local(address: u128) -> (r: bool)
    ensures
        r == (address / LINK_LOCAL_UNIT == 0x3fa),
{
    address / LINK_LOCAL_UNIT == 0x3fa
}

proof fn lemma_advertisement(ra: RaAdvertisement)
    ensures
        ({
            let o = ra.octets();
            let prefix = first_of(ra.advertised_prefix.spec_address(), ra.advertised_prefix.spec_length()) as u128;
            &&& o.len() == 80
            &&& o.subrange(0, 6) == seq![134u8, 0u8, 0u8, 0u8, 64u8, 0u8]
            &&& o.subrange(6, 8) == oct2(ra.router_lifetime as int)
            &&& o.subrange(8, 12) == oct4(0)
            &&& o.subrange(12, 16) == oct4(0)
            &&& o.subrange(16, 20) == seq![3u8, 4u8, ra.advertised_prefix.spec_length(), 0xc0u8]
            &&& o.subrange(20, 24) == oct4(ra.valid_lifetime as int)
            &&& o.subrange(24, 28) == oct4(ra.preferred_lifetime as int)
            &&& o.subrange(28, 32) == oct4(0)
            &&& o.subrange(32, 48) == oct16(prefix as int)
            &&& o.subrange(48, 50) == seq![5u8, 1u8]
            &&& o.subrange(50, 52) == oct2(0)
            &&& o.subrange(52, 56) == oct4(ra.mtu as int)
            &&& o.subrange(56, 58) == seq![25u8, 3u8]
            &&& o.subrange(58, 60) == oct2(0)
            &&& o.subrange(60, 64) == oct4(ra.rdnss_lifetime as int)
            &&& o.subrange(64, 80) == oct16(ra.dns_server as int)
        }),
{
    let o = ra.octets();
    let prefix = first_of(ra.advertised_prefix.spec_address(), ra.advertised_prefix.spec_length()) as u128;
    law_advertisement_size(ra);
    lemma_oct16_len(prefix as int);
    lemma_oct16_len(ra.dns_server as int);
    assert(o.subrange(0, 6) =~= seq![134u8, 0u8, 0u8, 0u8, 64u8, 0u8]);
    assert(o.subrange(6, 8) =~= oct2(ra.router_lifetime as int));
    assert(o.subrange(8, 12) =~= oct4(0));
    assert(o.subrange(12, 16) =~= oct4(0));
    assert(o.subrange(16, 20) =~= seq![3u8, 4u8, ra.advertised_prefix.spec_length(), 0xc0u8]);
    assert(o.subrange(20, 24) =~= oct4(ra.valid_lifetime as int));
    assert(o.subrange(24, 28) =~= oct4(ra.preferred_lifetime as int));
    assert(o.subrange(28, 32) =~= oct4(0));
    assert(o.subrange(32, 48) =~= oct16(prefix as int));
    assert(o.subrange(48, 50) =~= seq![5u8, 1u8]);
    assert(o.subrange(50, 52) =~= oct2(0));
    assert(o.subrange(52, 56) =~= oct4(ra.mtu as int));
    assert(o.subrange(56, 58) =~= seq![25u8, 3u8]);
    assert(o.subrange(58, 60) =~= oct2(0));
    assert(o.subrange(60, 64) =~= oct4(ra.rdnss_lifetime as int));
    assert(o.subrange(64, 80) =~= oct16(ra.dns_server as int));
}

/// The first address of a prefix is the greatest multiple of the prefix's size that does not lie above an address of
/// the prefix.
pub proof fn law_a_prefix_starts_at_a_multiple_of_its_size(address: u128, length: u8)
    requires
        length <= 128,
    ensures
        first_of(address, length) % pow2((128 - length) as nat) as int == 0,
        0 <= first_of(address, length) <= address < first_of(address, length) + pow2((128 - length) as nat),
{
    let size = pow2((128 - length) as nat) as int;
    vstd::arithmetic::power2::lemma_pow2_pos((128 - length) as nat);
    vstd::arithmetic::div_mod::lemma_fundamental_div_mod(address as int, size);
    vstd::arithmetic::div_mod::lemma_mod_division_less_than_divisor(address as int, size);
    vstd::arithmetic::div_mod::lemma_div_pos_is_pos(address as int, size);
    vstd::arithmetic::mul::lemma_mul_nonnegative(size, address as int / size);
    vstd::arithmetic::div_mod::lemma_mod_multiples_basic(address as int / size, size);
    vstd::arithmetic::mul::lemma_mul_is_commutative(size, address as int / size);
}

/// An advertisement reads back as what it says, field by field, each from its own octets: the hop limit of 64 and no
/// other flags, the router's lifetime, no timers, the prefix on the link and free to use with its lifetimes, the
/// MTU, and the DNS server with its lifetime.
pub proof fn law_an_advertisement_reads_back(ra: RaAdvertisement)
    requires
        ra.advertised_prefix.wf(),
    ensures
        ({
            let o = ra.octets();
            &&& o.len() == 80
            &&& o[0] == 134
            &&& o[1] == 0
            &&& o[4] == 64
            &&& o[5] == 0
            &&& be16(o, 6) == ra.router_lifetime
            &&& be32(o, 8) == 0
            &&& be32(o, 12) == 0
            &&& o[16] == 3
            &&& o[17] == 4
            &&& o[18] == ra.advertised_prefix.spec_length()
            &&& o[19] == 0xc0
            &&& be32(o, 20) == ra.valid_lifetime
            &&& be32(o, 24) == ra.preferred_lifetime
            &&& be32(o, 28) == 0
            &&& be128(o, 32) == first_of(ra.advertised_prefix.spec_address(), ra.advertised_prefix.spec_length())
            &&& o[48] == 5
            &&& o[49] == 1
            &&& be32(o, 52) == ra.mtu
            &&& o[56] == 25
            &&& o[57] == 3
            &&& be32(o, 60) == ra.rdnss_lifetime
            &&& be128(o, 64) == ra.dns_server
        }),
{
    let o = ra.octets();
    let prefix = first_of(ra.advertised_prefix.spec_address(), ra.advertised_prefix.spec_length());
    lemma_advertisement(ra);
    law_a_prefix_starts_at_a_multiple_of_its_size(
        ra.advertised_prefix.spec_address(),
        ra.advertised_prefix.spec_length(),
    );
    law_read_back_u16(o, 6, ra.router_lifetime as int);
    law_read_back_u32(o, 8, 0);
    law_read_back_u32(o, 12, 0);
    law_read_back_u32(o, 20, ra.valid_lifetime as int);
    law_read_back_u32(o, 24, ra.preferred_lifetime as int);
    law_read_back_u32(o, 28, 0);
    law_read_back_u128(o, 32, prefix);
    law_read_back_u32(o, 52, ra.mtu as int);
    law_read_back_u32(o, 60, ra.rdnss_lifetime as int);
    law_read_back_u128(o, 64, ra.dns_server as int);
    assert(o[0] == o.subrange(0, 6)[0] && o[1] == o.subrange(0, 6)[1]);
    assert(o[4] == o.subrange(0, 6)[4] && o[5] == o.subrange(0, 6)[5]);
    assert(o[16] == o.subrange(16, 20)[0] && o[17] == o.subrange(16, 20)[1]);
    assert(o[18] == o.subrange(16, 20)[2] && o[19] == o.subrange(16, 20)[3]);
    assert(o[48] == o.subrange(48, 50)[0] && o[49] == o.subrange(48, 50)[1]);
    assert(o[56] == o.subrange(56, 58)[0] && o[57] == o.subrange(56, 58)[1]);
}

/// The advertisement of a current prefix keeps the router for half an hour, the prefix valid for an hour and preferred
/// for half of it, and the DNS server for ten minutes, each read back from its octets. It tells the gateway's own
/// prefix, the MTU that it was made with, and the gateway as the DNS server.
pub proof fn law_a_current_prefix_is_advertised_as_live(gateway: Ipv6Inet, mtu: u32)
    requires
        gateway.wf(),
    ensures
        ({
            let o = current_ra(gateway, mtu).octets();
            &&& o[0] == 134
            &&& be16(o, 6) == 1800
            &&& o[18] == gateway.spec_length()
            &&& be32(o, 20) == 3600
            &&& be32(o, 24) == 1800
            &&& be128(o, 32) <= gateway.spec_address() < be128(o, 32) + pow2((128 - gateway.spec_length()) as nat)
            &&& be128(o, 32) % pow2((128 - gateway.spec_length()) as nat) as int == 0
            &&& be32(o, 52) == mtu
            &&& be32(o, 60) == 600
            &&& be128(o, 64) == gateway.spec_address()
        }),
{
    law_an_advertisement_reads_back(current_ra(gateway, mtu));
    law_a_prefix_starts_at_a_multiple_of_its_size(gateway.spec_address(), gateway.spec_length());
}

/// The advertisement that withdraws a prefix gives the prefix and its DNS server no time at all. The router goes with
/// them exactly where it is not kept. Apart from the lifetimes it says what the advertisement of the current prefix
/// said, so that it is that prefix which goes.
pub proof fn law_a_withdrawn_prefix_has_no_time_left(prefix: Ipv6Inet, mtu: u32, keep_router: bool)
    requires
        prefix.wf(),
    ensures
        ({
            let o = zero_lifetime_ra(prefix, mtu, keep_router).octets();
            let live = current_ra(prefix, mtu).octets();
            &&& be16(o, 6) == 0 <==> !keep_router
            &&& keep_router ==> be16(o, 6) == 1800 && be16(o, 6) == be16(live, 6)
            &&& be32(o, 20) == 0
            &&& be32(o, 24) == 0
            &&& be32(o, 60) == 0
            &&& o[0] == 134
            &&& o[4] == live[4]
            &&& o[18] == prefix.spec_length()
            &&& o[18] == live[18]
            &&& be128(o, 32) == be128(live, 32)
            &&& be128(o, 32) <= prefix.spec_address() < be128(o, 32) + pow2((128 - prefix.spec_length()) as nat)
            &&& be128(o, 32) % pow2((128 - prefix.spec_length()) as nat) as int == 0
            &&& be32(o, 52) == mtu
            &&& be128(o, 64) == prefix.spec_address()
        }),
{
    law_an_advertisement_reads_back(zero_lifetime_ra(prefix, mtu, keep_router));
    law_an_advertisement_reads_back(current_ra(prefix, mtu));
    law_a_prefix_starts_at_a_multiple_of_its_size(prefix.spec_address(), prefix.spec_length());
}

/// The unicast link-local addresses are those from `fe80::` up to the last that begins with `febf`.
pub proof fn law_where_link_local_addresses_lie(address: u128)
    ensures
        address / LINK_LOCAL_UNIT == 0x3fa <==> 0xfe80_0000_0000_0000_0000_0000_0000_0000 <= address
            <= 0xfebf_ffff_ffff_ffff_ffff_ffff_ffff_ffff,
{
}

} // verus!
