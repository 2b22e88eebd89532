//! The addresses that the daemon answers errors from.
use vstd::prelude::*;

use crate::addr::IpAddr;

verus! {

/// The gateway's addresses.
#[derive(Debug)]
pub struct Gateways(Vec<IpAddr>);

/// Whether a packet is one of IPv6, where it is one of either version.
pub open spec fn version(packet: Seq<u8>) -> Option<bool> {
    if packet.len() == 0 {
        None
    } else if packet[0] / 16 == 4 {
        Some(false)
    } else if packet[0] / 16 == 6 {
        Some(true)
    } else {
        None
    }
}

/// The first address from the `i`th on that is of a version.
pub open spec fn first_of_version(addresses: Seq<IpAddr>, ipv6: bool, i: int) -> Option<IpAddr>
    decreases addresses.len() - i,
{
    if i < 0 || i >= addresses.len() {
        None
    } else if (addresses[i] is V6) == ipv6 {
        Some(addresses[i])
    } else {
        first_of_version(addresses, ipv6, i + 1)
    }
}

impl Gateways {
    /// The addresses, in order.
    pub closed spec fn spec_addresses(&self) -> Seq<IpAddr> {
        self.0@
    }

    /// The gateway's addresses.
    pub fn new(addresses: Vec<IpAddr>) -> (r: Self)
        ensures
            r.spec_addresses() == addresses@,
    {
        Gateways(addresses)
    }

    /// The address that an error about a packet comes from: the first one of the packet's version.
    pub fn source_for(&self, packet: &[u8]) -> (r: Option<IpAddr>)
        ensures
            r == match version(packet@) {
                Some(ipv6) => first_of_version(self.spec_addresses(), ipv6, 0),
                None => None,
            },
    {
        if packet.len() == 0 {
            return None;
        }
        let ipv6 = match packet[0] / 16 {
            4 => false,
            6 => true,
            _ => return None,
        };
        let mut i: usize = 0;
        while i < self.0.len()
            invariant
                i <= self.0@.len(),
                version(packet@) == Some(ipv6),
                first_of_version(self.0@, ipv6, 0) == first_of_version(self.0@, ipv6, i as int),
            decreases self.0@.len() - i,
        {
            if self.0[i].is_ipv6() == ipv6 {
                return Some(self.0[i]);
            }
            i += 1;
        }
        None
    }
}

/// The family of a packet is what its first half octet says, four or six. Any other is of neither.
pub proof fn law_the_first_half_octet_is_the_version(packet: Seq<u8>)
    ensures
        version(packet) == Some(false) <==> packet.len() > 0 && 0x40 <= packet[0] <= 0x4f,
        version(packet) == Some(true) <==> packet.len() > 0 && 0x60 <= packet[0] <= 0x6f,
{
}

/// The gateway for a family is the first of its addresses. There is none where none is of the family.
pub proof fn law_the_first_gateway_of_a_family(addresses: Seq<IpAddr>, ipv6: bool, i: int)
    requires
        0 <= i <= addresses.len(),
        forall|k: int| 0 <= k < i ==> ((#[trigger] addresses[k]) is V6) != ipv6,
    ensures
        i < addresses.len() && (addresses[i] is V6) == ipv6 ==> first_of_version(addresses, ipv6, 0) == Some(
            addresses[i],
        ),
        i == addresses.len() ==> first_of_version(addresses, ipv6, 0) is None,
{
    lemma_first_of_version(addresses, ipv6, 0, i);
}

proof fn lemma_first_of_version(addresses: Seq<IpAddr>, ipv6: bool, a: int, i: int)
    requires
        0 <= a <= i <= addresses.len(),
        forall|k: int| 0 <= k < i ==> ((#[trigger] addresses[k]) is V6) != ipv6,
    ensures
        first_of_version(addresses, ipv6, a) == first_of_version(addresses, ipv6, i),
    decreases i - a,
{
    if a < i {
        assert((addresses[a] is V6) != ipv6);
        lemma_first_of_version(addresses, ipv6, a + 1, i);
    }
}

} // verus!
