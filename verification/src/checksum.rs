//! The Internet checksum, as the packet crate computes it.
use vstd::prelude::*;

use crate::ip_wire::ipv4_header_fits;

verus! {

/// The sum of the 16-bit words of `s`, the last octet padded with zero where there is an odd one.
pub open spec fn word_sum(s: Seq<u8>) -> nat
    decreases s.len(),
{
    if s.len() == 0 {
        0
    } else if s.len() == 1 {
        (s[0] * 256) as nat
    } else {
        (s[0] * 256 + s[1]) as nat + word_sum(s.subrange(2, s.len() as int))
    }
}

/// A sum with its carries added back until it fits 16 bits: only zero folds to zero.
pub open spec fn folded(sum: nat) -> int {
    if sum == 0 {
        0
    } else {
        (sum - 1) % 65535 + 1
    }
}

/// The complement of the folded word sum.
pub open spec fn ones_complement(s: Seq<u8>) -> u16 {
    (65535 - folded(word_sum(s))) as u16
}

/// The complement of the folded word sum, with zero sent as all ones.
pub open spec fn ones_complement_no_zero(s: Seq<u8>) -> u16 {
    if ones_complement(s) == 0 {
        65535
    } else {
        ones_complement(s)
    }
}

proof fn lemma_changed_sum(s: Seq<u8>, i: int, v: u8)
    requires
        0 <= i < s.len(),
    ensures
        word_sum(s.update(i, v)) == word_sum(s) + (v - s[i]) * if i % 2 == 0 { 256int } else { 1 },
    decreases s.len(),
{
    if i >= 2 {
        let rest = s.subrange(2, s.len() as int);
        lemma_changed_sum(rest, i - 2, v);
        assert(s.update(i, v).subrange(2, s.len() as int) =~= rest.update(i - 2, v));
    } else if s.len() > 1 {
        assert(s.update(i, v).subrange(2, s.len() as int) =~= s.subrange(2, s.len() as int));
    }
}

proof fn lemma_sum_reaches(s: Seq<u8>, i: int)
    requires
        0 <= i < s.len(),
    ensures
        word_sum(s) >= s[i],
    decreases s.len(),
{
    if i >= 2 {
        let rest = s.subrange(2, s.len() as int);
        lemma_sum_reaches(rest, i - 2);
        assert(rest[i - 2] == s[i]);
    }
}

/// A checksum tells when one octet was changed, where another octet is not zero.
pub proof fn law_one_changed_octet_shows(s: Seq<u8>, i: int, v: u8, other: int)
    requires
        0 <= i < s.len(),
        v != s[i],
        0 <= other < s.len(),
        other != i,
        s[other] != 0,
    ensures
        ones_complement_no_zero(s.update(i, v)) != ones_complement_no_zero(s),
{
    let changed = s.update(i, v);
    lemma_changed_sum(s, i, v);
    lemma_sum_reaches(s, other);
    lemma_sum_reaches(changed, other);
    let a = word_sum(s) as int;
    let b = word_sum(changed) as int;
    assert(b - a == (v - s[i]) * 256 || b - a == v - s[i]);
    assert(a != b && -65535 < b - a < 65535);
    assert(folded(a as nat) != folded(b as nat));
}

/// What an IPv4 header checksum covers: the header alone, its reserved flag and its checksum field
/// taken as zero.
pub open spec fn ipv4_checksummed(s: Seq<u8>) -> Seq<u8> {
    s.subrange(0, (s[0] % 16) * 4).update(6, s[6] % 128).update(10, 0).update(11, 0)
}

/// The checksum that belongs in an IPv4 header.
///
/// Calls `etherparse::Ipv4Header::from_slice` and `calc_header_checksum`: the complement of the folded
/// word sum of the header, options included, without its reserved flag and checksum field.
#[verifier::external_body]
pub(crate) fn ipv4_header_checksum(packet: &[u8]) -> (r: u16)
    requires
        ipv4_header_fits(packet@),
    ensures
        r == ones_complement(ipv4_checksummed(packet@)),
{
    etherparse::Ipv4Header::from_slice(packet).unwrap().0.calc_header_checksum()
}

/// A checksum makes up for what it is of: their sum is a multiple of 65535. It is all ones only for octets that are all
/// zero, and the one that may not be zero is all ones in its place.
pub proof fn law_a_checksum_makes_up_for_its_octets(s: Seq<u8>)
    ensures
        (word_sum(s) + ones_complement(s)) % 65535 == 0,
        (word_sum(s) + ones_complement_no_zero(s)) % 65535 == 0,
        ones_complement_no_zero(s) != 0,
        ones_complement(s) == 65535 <==> word_sum(s) == 0,
        ones_complement(s) != 0 ==> ones_complement_no_zero(s) == ones_complement(s),
{
    let sum = word_sum(s) as int;
    if sum > 0 {
        let folded = (sum - 1) % 65535 + 1;
        assert(sum - folded == 65535 * ((sum - 1) / 65535));
    }
}

/// The sum is that of the octets in pairs, the first of each counting 256 times, and a last one without a partner
/// counts as if a zero followed it.
pub proof fn law_octets_are_summed_in_pairs(s: Seq<u8>, a: u8, b: u8)
    requires
        s.len() % 2 == 0,
    ensures
        word_sum(Seq::<u8>::empty()) == 0,
        word_sum(s.push(a)) == word_sum(s) + a * 256,
        word_sum(s.push(a).push(b)) == word_sum(s) + a * 256 + b,
    decreases s.len(),
{
    let one = s.push(a);
    let two = one.push(b);
    if s.len() == 0 {
        assert(two.subrange(2, 2) =~= Seq::<u8>::empty());
        assert(word_sum(two.subrange(2, 2)) == 0);
    } else {
        let rest = s.subrange(2, s.len() as int);
        law_octets_are_summed_in_pairs(rest, a, b);
        assert(one.subrange(2, one.len() as int) =~= rest.push(a));
        assert(two.subrange(2, two.len() as int) =~= rest.push(a).push(b));
    }
}

/// An IPv4 header is summed as long as its first octet says, as if its checksum were zero. Every other octet counts but
/// for the reserved flag.
pub proof fn law_what_an_ipv4_checksum_covers(s: Seq<u8>, i: int)
    requires
        ipv4_header_fits(s),
    ensures
        ipv4_checksummed(s).len() == (s[0] - 0x40) * 4,
        ipv4_checksummed(s)[10] == 0,
        ipv4_checksummed(s)[11] == 0,
        ipv4_checksummed(s)[6] == s[6] % 128,
        0 <= i < (s[0] - 0x40) * 4 && i != 6 && i != 10 && i != 11 ==> ipv4_checksummed(s)[i] == s[i],
{
}

} // verus!
