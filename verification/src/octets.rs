//! Big-endian numbers in byte sequences.
use vstd::prelude::*;

verus! {

/// The two octets at `i`, read as a number.
pub open spec fn be16(s: Seq<u8>, i: int) -> int {
    s[i] * 256 + s[i + 1]
}

/// The four octets at `i`, read as a number.
pub open spec fn be32(s: Seq<u8>, i: int) -> int {
    be16(s, i) * 0x1_0000 + be16(s, i + 2)
}

/// The eight octets at `i`, read as a number.
pub open spec fn be64(s: Seq<u8>, i: int) -> int {
    be32(s, i) * 0x1_0000_0000 + be32(s, i + 4)
}

/// The sixteen octets at `i`, read as a number.
#[verifier::opaque]
pub open spec fn be128(s: Seq<u8>, i: int) -> int {
    be64(s, i) * 0x1_0000_0000_0000_0000 + be64(s, i + 8)
}

/// The two octets of `x`.
pub open spec fn oct2(x: int) -> Seq<u8> {
    seq![((x / 256) % 256) as u8, (x % 256) as u8]
}

/// The four octets of `x`.
pub open spec fn oct4(x: int) -> Seq<u8> {
    oct2(x / 0x1_0000) + oct2(x % 0x1_0000)
}

/// The eight octets of `x`.
pub open spec fn oct8(x: int) -> Seq<u8> {
    oct4(x / 0x1_0000_0000) + oct4(x % 0x1_0000_0000)
}

/// The sixteen octets of `x`.
#[verifier::opaque]
pub open spec fn oct16(x: int) -> Seq<u8> {
    oct8(x / 0x1_0000_0000_0000_0000) + oct8(x % 0x1_0000_0000_0000_0000)
}

proof fn lemma_halves(s: Seq<u8>, i: int, n: int, high: Seq<u8>, low: Seq<u8>)
    requires
        0 <= i,
        high.len() == n,
        low.len() == n,
        i + 2 * n <= s.len(),
        s.subrange(i, i + 2 * n) == high + low,
    ensures
        s.subrange(i, i + n) == high,
        s.subrange(i + n, i + 2 * n) == low,
{
    let whole = s.subrange(i, i + 2 * n);
    assert(s.subrange(i, i + n) =~= whole.subrange(0, n));
    assert(s.subrange(i + n, i + 2 * n) =~= whole.subrange(n, 2 * n));
    assert((high + low).subrange(0, n) =~= high);
    assert((high + low).subrange(n, 2 * n) =~= low);
}

proof fn lemma_oct8_len(x: int)
    ensures
        oct8(x).len() == 8,
{
}

/// Two octets that stand at `i` read back as the number they were made of.
pub proof fn law_read_back_u16(s: Seq<u8>, i: int, x: int)
    requires
        0 <= i,
        0 <= x <= u16::MAX,
        i + 2 <= s.len(),
        s.subrange(i, i + 2) == oct2(x),
    ensures
        be16(s, i) == x,
{
    assert(s[i] == s.subrange(i, i + 2)[0]);
    assert(s[i + 1] == s.subrange(i, i + 2)[1]);
}

/// Four octets that stand at `i` read back as the number they were made of.
pub proof fn law_read_back_u32(s: Seq<u8>, i: int, x: int)
    requires
        0 <= i,
        0 <= x <= u32::MAX,
        i + 4 <= s.len(),
        s.subrange(i, i + 4) == oct4(x),
    ensures
        be32(s, i) == x,
{
    let high = x / 0x1_0000;
    let low = x % 0x1_0000;
    lemma_halves(s, i, 2, oct2(high), oct2(low));
    law_read_back_u16(s, i, high);
    law_read_back_u16(s, i + 2, low);
}

/// Eight octets that stand at `i` read back as the number they were made of.
pub proof fn law_read_back_u64(s: Seq<u8>, i: int, x: int)
    requires
        0 <= i,
        0 <= x <= u64::MAX,
        i + 8 <= s.len(),
        s.subrange(i, i + 8) == oct8(x),
    ensures
        be64(s, i) == x,
{
    let high = x / 0x1_0000_0000;
    let low = x % 0x1_0000_0000;
    lemma_halves(s, i, 4, oct4(high), oct4(low));
    law_read_back_u32(s, i, high);
    law_read_back_u32(s, i + 4, low);
}

/// Sixteen octets that stand at `i` read back as the number they were made of.
pub proof fn law_read_back_u128(s: Seq<u8>, i: int, x: int)
    requires
        0 <= i,
        0 <= x <= u128::MAX,
        i + 16 <= s.len(),
        s.subrange(i, i + 16) == oct16(x),
    ensures
        be128(s, i) == x,
{
    reveal(be128);
    reveal(oct16);
    let high = x / 0x1_0000_0000_0000_0000;
    let low = x % 0x1_0000_0000_0000_0000;
    lemma_oct8_len(high);
    lemma_oct8_len(low);
    lemma_halves(s, i, 8, oct8(high), oct8(low));
    law_read_back_u64(s, i, high);
    law_read_back_u64(s, i + 8, low);
}

/// Numbers read from octets stay within their width.
pub proof fn lemma_be_bounds(s: Seq<u8>, i: int)
    ensures
        0 <= be16(s, i) <= u16::MAX,
        0 <= be32(s, i) <= u32::MAX,
        0 <= be64(s, i) <= u64::MAX,
        0 <= be128(s, i) <= u128::MAX,
{
    reveal(be128);
}

/// Sixteen octets are sixteen.
pub proof fn lemma_oct16_len(x: int)
    ensures
        oct16(x).len() == 16,
{
    reveal(oct16);
}

/// Sequences that agree on sixteen octets read the same there.
pub proof fn lemma_be128_same(a: Seq<u8>, b: Seq<u8>, i: int)
    requires
        forall|k: int| i <= k < i + 16 ==> a[k] == b[k],
    ensures
        be128(a, i) == be128(b, i),
{
    reveal(be128);
    assert(be32(a, i) == be32(b, i));
    assert(be32(a, i + 4) == be32(b, i + 4));
    assert(be32(a, i + 8) == be32(b, i + 8));
    assert(be32(a, i + 12) == be32(b, i + 12));
}

/// The octets of a number read at `i` are those that stand there.
pub proof fn lemma_same_u16(s: Seq<u8>, i: int)
    requires
        0 <= i,
        i + 2 <= s.len(),
    ensures
        oct2(be16(s, i)) == s.subrange(i, i + 2),
{
    assert(oct2(be16(s, i)) =~= s.subrange(i, i + 2));
}

/// The octets of a number read at `i` are those that stand there.
pub proof fn lemma_same_u32(s: Seq<u8>, i: int)
    requires
        0 <= i,
        i + 4 <= s.len(),
    ensures
        oct4(be32(s, i)) == s.subrange(i, i + 4),
{
    let high = be16(s, i);
    let low = be16(s, i + 2);
    let x = be32(s, i);
    lemma_same_u16(s, i);
    lemma_same_u16(s, i + 2);
    lemma_split(high, low, x);
    assert(s.subrange(i, i + 2) + s.subrange(i + 2, i + 4) =~= s.subrange(i, i + 4));
}

proof fn lemma_split(high: int, low: int, x: int)
    requires
        0 <= high,
        0 <= low < 0x1_0000,
        x == high * 0x1_0000 + low,
    ensures
        x / 0x1_0000 == high,
        x % 0x1_0000 == low,
{
}

/// Reads two octets.
pub fn read_u16(s: &[u8], i: usize) -> (r: u16)
    requires
        i + 2 <= s@.len(),
    ensures
        r == be16(s@, i as int),
{
    s[i] as u16 * 256 + s[i + 1] as u16
}

/// Reads four octets.
pub fn read_u32(s: &[u8], i: usize) -> (r: u32)
    requires
        i + 4 <= s@.len(),
    ensures
        r == be32(s@, i as int),
{
    let _n: usize = s.len();
    read_u16(s, i) as u32 * 0x1_0000 + read_u16(s, i + 2) as u32
}

/// Reads eight octets.
pub fn read_u64(s: &[u8], i: usize) -> (r: u64)
    requires
        i + 8 <= s@.len(),
    ensures
        r == be64(s@, i as int),
{
    let _n: usize = s.len();
    read_u32(s, i) as u64 * 0x1_0000_0000 + read_u32(s, i + 4) as u64
}

/// Reads sixteen octets.
pub fn read_u128(s: &[u8], i: usize) -> (r: u128)
    requires
        i + 16 <= s@.len(),
    ensures
        r == be128(s@, i as int),
{
    reveal(be128);
    let _n: usize = s.len();
    read_u64(s, i) as u128 * 0x1_0000_0000_0000_0000 + read_u64(s, i + 8) as u128
}

/// Appends two octets.
pub fn push_u16(out: &mut Vec<u8>, x: u16)
    ensures
        final(out)@ == old(out)@ + oct2(x as int),
{
    out.push((x / 256) as u8);
    out.push((x % 256) as u8);
    assert(out@ =~= old(out)@ + oct2(x as int));
}

/// Appends four octets.
pub fn push_u32(out: &mut Vec<u8>, x: u32)
    ensures
        final(out)@ == old(out)@ + oct4(x as int),
{
    push_u16(out, (x / 0x1_0000) as u16);
    push_u16(out, (x % 0x1_0000) as u16);
    assert(out@ =~= old(out)@ + oct4(x as int));
}

/// Appends eight octets.
pub fn push_u64(out: &mut Vec<u8>, x: u64)
    ensures
        final(out)@ == old(out)@ + oct8(x as int),
{
    push_u32(out, (x / 0x1_0000_0000) as u32);
    push_u32(out, (x % 0x1_0000_0000) as u32);
    assert(out@ =~= old(out)@ + oct8(x as int));
}

/// Appends sixteen octets.
pub fn push_u128(out: &mut Vec<u8>, x: u128)
    ensures
        final(out)@ == old(out)@ + oct16(x as int),
{
    reveal(oct16);
    push_u64(out, (x / 0x1_0000_0000_0000_0000) as u64);
    push_u64(out, (x % 0x1_0000_0000_0000_0000) as u64);
    assert(out@ =~= old(out)@ + oct16(x as int));
}

/// Appends every octet of a slice.
pub fn push_all(out: &mut Vec<u8>, bytes: &[u8])
    ensures
        final(out)@ == old(out)@ + bytes@,
{
    out.extend_from_slice(bytes);
    assert(out@ =~= old(out)@ + bytes@);
}

/// Appends the octets of a slice from `start` to `end`.
pub fn push_range(out: &mut Vec<u8>, bytes: &[u8], start: usize, end: usize)
    requires
        start <= end <= bytes@.len(),
    ensures
        final(out)@ == old(out)@ + bytes@.subrange(start as int, end as int),
{
    push_all(out, vstd::slice::slice_subrange(bytes, start, end));
}

/// Numbers stand with their highest octet first: each octet counts 256 times as much as the next.
pub proof fn law_the_highest_octet_comes_first(s: Seq<u8>, i: int)
    ensures
        be16(s, i) == s[i] * 256 + s[i + 1],
        be32(s, i) == s[i] * 16_777_216 + s[i + 1] * 65_536 + s[i + 2] * 256 + s[i + 3],
        be64(s, i) == be32(s, i) * 4_294_967_296 + be32(s, i + 4),
        be128(s, i) == be64(s, i) * 18_446_744_073_709_551_616 + be64(s, i + 8),
{
    reveal(be128);
}

} // verus!
