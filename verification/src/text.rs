//! Numbers and octets in messages.
use vstd::prelude::*;
use vstd::utf8::{decode_utf8, valid_utf8};

verus! {

/// The character of one decimal digit.
pub open spec fn digit(d: nat) -> char {
    if d == 0 { '0' } else if d == 1 { '1' } else if d == 2 { '2' } else if d == 3 { '3' }
    else if d == 4 { '4' } else if d == 5 { '5' } else if d == 6 { '6' } else if d == 7 { '7' }
    else if d == 8 { '8' } else { '9' }
}

/// A number in decimal, without leading zeros.
pub open spec fn decimal(n: nat) -> Seq<char>
    decreases n,
{
    if n < 10 {
        seq![digit(n)]
    } else {
        decimal(n / 10).push(digit(n % 10))
    }
}

fn digit_text(d: u64) -> (r: &'static str)
    requires
        d < 10,
    ensures
        r@ == seq![digit(d as nat)],
{
    proof {
        reveal_strlit("0");
        reveal_strlit("1");
        reveal_strlit("2");
        reveal_strlit("3");
        reveal_strlit("4");
        reveal_strlit("5");
        reveal_strlit("6");
        reveal_strlit("7");
        reveal_strlit("8");
        reveal_strlit("9");
    }
    let r = match d {
        0 => "0",
        1 => "1",
        2 => "2",
        3 => "3",
        4 => "4",
        5 => "5",
        6 => "6",
        7 => "7",
        8 => "8",
        _ => "9",
    };
    assert(r@ =~= seq![digit(d as nat)]);
    r
}

/// Appends a number in decimal.
pub fn push_decimal(out: &mut String, n: u64)
    ensures
        final(out)@ == old(out)@ + decimal(n as nat),
    decreases n,
{
    if n < 10 {
        out.append(digit_text(n));
    } else {
        push_decimal(out, n / 10);
        out.append(digit_text(n % 10));
        assert(out@ =~= old(out)@ + decimal(n as nat));
    }
}

/// Appends a label and a number in decimal.
pub fn push_field(out: &mut String, label: &str, n: u64)
    ensures
        final(out)@ == old(out)@ + label@ + decimal(n as nat),
{
    out.append(label);
    push_decimal(out, n);
}

/// A number in decimal.
pub fn decimal_text(n: u64) -> (r: String)
    ensures
        r@ == decimal(n as nat),
{
    let mut out = String::new();
    push_decimal(&mut out, n);
    assert(out@ =~= decimal(n as nat));
    out
}

/// A number in decimal, with its sign where it is negative.
pub open spec fn signed_decimal(n: int) -> Seq<char> {
    if n < 0 {
        "-"@ + decimal((-n) as nat)
    } else {
        decimal(n as nat)
    }
}

/// Appends a number in decimal, with its sign where it is negative.
pub fn push_signed_decimal(out: &mut String, n: i32)
    ensures
        final(out)@ == old(out)@ + signed_decimal(n as int),
{
    if n < 0 {
        out.append("-");
        push_decimal(out, (-(n as i64)) as u64);
        assert(out@ =~= old(out)@ + signed_decimal(n as int));
    } else {
        push_decimal(out, n as u64);
    }
}

/// An IPv4 address, its octets in decimal with dots between them.
pub open spec fn dotted(address: u32) -> Seq<char> {
    decimal((address / 0x100_0000) as nat) + "."@ + decimal((address / 0x1_0000 % 0x100) as nat) + "."@
        + decimal((address / 0x100 % 0x100) as nat) + "."@ + decimal((address % 0x100) as nat)
}

/// Appends an IPv4 address.
pub fn push_dotted(out: &mut String, address: u32)
    ensures
        final(out)@ == old(out)@ + dotted(address),
{
    push_decimal(out, (address / 0x100_0000) as u64);
    push_field(out, ".", (address / 0x1_0000 % 0x100) as u64);
    push_field(out, ".", (address / 0x100 % 0x100) as u64);
    push_field(out, ".", (address % 0x100) as u64);
    assert(out@ =~= old(out)@ + dotted(address));
}

/// The character of one hexadecimal digit.
pub open spec fn hex_digit(d: nat) -> char {
    if d < 10 { digit(d) } else if d == 10 { 'a' } else if d == 11 { 'b' } else if d == 12 { 'c' }
    else if d == 13 { 'd' } else if d == 14 { 'e' } else { 'f' }
}

/// A number in hexadecimal, without leading zeros.
pub open spec fn hexadecimal(n: nat) -> Seq<char>
    decreases n,
{
    if n < 16 {
        seq![hex_digit(n)]
    } else {
        hexadecimal(n / 16).push(hex_digit(n % 16))
    }
}

fn hex_digit_text(d: u32) -> (r: &'static str)
    requires
        d < 16,
    ensures
        r@ == seq![hex_digit(d as nat)],
{
    if d < 10 {
        return digit_text(d as u64);
    }
    proof {
        reveal_strlit("a");
        reveal_strlit("b");
        reveal_strlit("c");
        reveal_strlit("d");
        reveal_strlit("e");
        reveal_strlit("f");
    }
    let r = match d {
        10 => "a",
        11 => "b",
        12 => "c",
        13 => "d",
        14 => "e",
        _ => "f",
    };
    assert(r@ =~= seq![hex_digit(d as nat)]);
    r
}

/// Appends a number in hexadecimal.
pub fn push_hexadecimal(out: &mut String, n: u32)
    ensures
        final(out)@ == old(out)@ + hexadecimal(n as nat),
    decreases n,
{
    if n < 16 {
        out.append(hex_digit_text(n));
    } else {
        push_hexadecimal(out, n / 16);
        out.append(hex_digit_text(n % 16));
        assert(out@ =~= old(out)@ + hexadecimal(n as nat));
    }
}

/// Octets as text, with a replacement character for what is none.
pub uninterp spec fn lossy_text(bytes: Seq<u8>) -> Seq<char>;

/// Octets as text.
///
/// Calls `String::from_utf8_lossy`, which reads octets that are text as that text, and puts replacement characters
/// for what is not. Where the replacements stand is left to its name.
#[verifier::external_body]
pub(crate) fn lossy(bytes: &[u8]) -> (r: String)
    ensures
        r@ == lossy_text(bytes@),
        valid_utf8(bytes@) ==> r@ == decode_utf8(bytes@),
{
    String::from_utf8_lossy(bytes).into_owned()
}

/// The digits are the ten characters from `0` on, and for a base of sixteen the six from `a` on behind them.
pub proof fn law_digits_are_in_order(d: nat)
    ensures
        d < 10 ==> digit(d) as int == '0' as int + d,
        d < 10 ==> hex_digit(d) as int == '0' as int + d,
        10 <= d < 16 ==> hex_digit(d) as int == 'a' as int + d - 10,
{
}

/// A number is written with its last digit last: the number before it is what comes before that digit. No number begins
/// with a zero but zero itself.
pub proof fn law_a_number_is_written_digit_by_digit(n: nat, d: nat)
    ensures
        d < 10 ==> decimal(d) == seq![digit(d)],
        d < 10 && n > 0 ==> decimal(10 * n + d) == decimal(n).push(digit(d)),
        d < 16 ==> hexadecimal(d) == seq![hex_digit(d)],
        d < 16 && n > 0 ==> hexadecimal(16 * n + d) == hexadecimal(n).push(hex_digit(d)),
        decimal(n).len() > 0,
        n > 0 ==> decimal(n)[0] != '0',
        decimal(n)[0] == '0' <==> n == 0,
    decreases n,
{
    if n >= 10 {
        law_a_number_is_written_digit_by_digit(n / 10, 0);
    }
}

/// A number below zero is written as the number without its sign behind a minus, and any other as it is.
pub proof fn law_only_what_is_below_zero_has_a_sign(n: nat)
    ensures
        signed_decimal(n as int) == decimal(n),
        n > 0 ==> signed_decimal(-n) == "-"@ + decimal(n),
{
}

/// An address is written octet by octet, the highest first, with a dot between each two.
pub proof fn law_an_address_is_written_octet_by_octet(a: u8, b: u8, c: u8, d: u8)
    ensures
        dotted((a * 16_777_216 + b * 65_536 + c * 256 + d) as u32) == decimal(a as nat) + "."@ + decimal(b as nat)
            + "."@ + decimal(c as nat) + "."@ + decimal(d as nat),
{
    lemma_octets(a as int, b as int, c as int, d as int);
}

proof fn lemma_octets(a: int, b: int, c: int, d: int)
    requires
        0 <= a < 256,
        0 <= b < 256,
        0 <= c < 256,
        0 <= d < 256,
    ensures
        ({
            let x = a * 16_777_216 + b * 65_536 + c * 256 + d;
            &&& 0 <= x <= u32::MAX
            &&& x / 0x100_0000 == a
            &&& x / 0x1_0000 % 0x100 == b
            &&& x / 0x100 % 0x100 == c
            &&& x % 0x100 == d
        }),
{
    let x = a * 16_777_216 + b * 65_536 + c * 256 + d;
    assert(x / 0x100 == a * 65_536 + b * 256 + c);
    assert(x / 0x1_0000 == a * 256 + b);
}

/// The first `n` of several numbers, each behind its name.
pub open spec fn listed(entries: Seq<(Seq<char>, nat)>, n: int) -> Seq<char>
    decreases n,
{
    if n <= 0 {
        Seq::empty()
    } else {
        listed(entries, n - 1) + entries[n - 1].0 + decimal(entries[n - 1].1)
    }
}

} // verus!
