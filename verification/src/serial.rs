//! Text for the serial console. Each function appends what it writes to a buffer of
//! bytes, which the port driver sends in order.
use vstd::prelude::*;

use crate::bytes;

verus! {

/// The bytes of a string.
pub open spec fn text(s: Seq<char>) -> Seq<u8> {
    vstd::utf8::encode_utf8(s)
}

pub open spec fn line_end() -> Seq<u8> {
    seq![0x0Du8, 0x0Au8]
}

/// An upper-case hexadecimal digit.
pub open spec fn hex_digit(d: int) -> u8 {
    if d < 10 {
        (0x30 + d) as u8
    } else {
        (0x41 + d - 10) as u8
    }
}

/// The last `n` hexadecimal digits of a number.
pub open spec fn hex_digits(value: int, n: nat) -> Seq<u8>
    decreases n,
{
    if n == 0 {
        Seq::empty()
    } else {
        hex_digits(value / 16, (n - 1) as nat).push(hex_digit(value % 16))
    }
}

/// A number as `0x` and sixteen digits.
pub open spec fn hex_text(value: u64) -> Seq<u8> {
    seq![0x30u8, 0x78u8] + hex_digits(value as int, 16)
}

/// A number in decimal, without leading zeros.
pub open spec fn dec_text(value: int) -> Seq<u8>
    decreases value,
{
    if value < 10 {
        seq![(0x30 + value) as u8]
    } else {
        dec_text(value / 10).push((0x30 + value % 10) as u8)
    }
}

/// What a digit stands for.
pub open spec fn digit_value(b: u8) -> int {
    if b < 0x41 {
        b - 0x30
    } else {
        b - 0x41 + 10
    }
}

/// What a row of digits stands for.
pub open spec fn digits_value(s: Seq<u8>, base: int) -> int
    decreases s.len(),
{
    if s.len() == 0 {
        0
    } else {
        digits_value(s.drop_last(), base) * base + digit_value(s.last())
    }
}

/// Decimal digits stand for the number that they were written for.
pub proof fn law_decimal_denotes(value: int)
    requires
        0 <= value,
    ensures
        digits_value(dec_text(value), 10) == value,
    decreases value,
{
    let s = dec_text(value);
    if value < 10 {
        assert(s.drop_last() =~= Seq::empty());
        assert(s.last() == (0x30 + value) as u8);
        assert(digits_value(s.drop_last(), 10) == 0);
    } else {
        law_decimal_denotes(value / 10);
        assert(s.drop_last() =~= dec_text(value / 10));
    }
}

proof fn lemma_hex_digits_value(value: int, n: nat, bound: int)
    requires
        0 <= value < bound,
        bound == vstd::arithmetic::power::pow(16, n),
    ensures
        digits_value(hex_digits(value, n), 16) == value,
        hex_digits(value, n).len() == n,
    decreases n,
{
    vstd::arithmetic::power::lemma_pow0(16);
    if n > 0 {
        vstd::arithmetic::power::lemma_pow_adds(16, (n - 1) as nat, 1);
        vstd::arithmetic::power::lemma_pow1(16);
        let smaller = vstd::arithmetic::power::pow(16, (n - 1) as nat);
        assert(bound == smaller * 16);
        lemma_hex_digits_value(value / 16, (n - 1) as nat, smaller);
        let s = hex_digits(value, n);
        assert(s.drop_last() =~= hex_digits(value / 16, (n - 1) as nat));
    }
}

/// The sixteen hexadecimal digits stand for the number that they were written for.
pub proof fn law_hex_denotes(value: u64)
    ensures
        hex_text(value).len() == 18,
        digits_value(hex_text(value).skip(2), 16) == value,
{
    assert(vstd::arithmetic::power::pow(16, 16) == 0x1_0000_0000_0000_0000) by {
        reveal_with_fuel(vstd::arithmetic::power::pow, 17);
    }
    lemma_hex_digits_value(value as int, 16, 0x1_0000_0000_0000_0000);
    assert(hex_text(value).skip(2) =~= hex_digits(value as int, 16));
}

pub fn write_byte(out: &mut Vec<u8>, byte: u8)
    ensures
        final(out)@ == old(out)@.push(byte),
{
    out.push(byte);
}

pub fn write_str(out: &mut Vec<u8>, s: &str)
    ensures
        final(out)@ == old(out)@ + text(s@),
{
    bytes::append(out, s.as_bytes());
}

/// Writes `0x` and sixteen upper-case hexadecimal digits.
pub fn write_hex(out: &mut Vec<u8>, value: u64)
    ensures
        final(out)@ == old(out)@ + hex_text(value),
{
    let ghost before = out@;
    out.push(0x30);
    out.push(0x78);
    let mut digits: Vec<u8> = Vec::new();
    let mut rest: u64 = value;
    let mut i: usize = 0;
    while i < 16
        invariant
            i <= 16,
            digits@.len() == i,
            hex_digits(value as int, 16) == hex_digits(rest as int, (16 - i) as nat)
                + digits@.reverse(),
        decreases 16 - i,
    {
        let d: u8 = (rest % 16) as u8;
        let ghost had = digits@;
        digits.push(
            if d < 10 {
                0x30 + d
            } else {
                0x41 + (d - 10)
            },
        );
        proof {
            let n = (16 - i) as nat;
            let front = hex_digits(rest as int / 16, (n - 1) as nat);
            assert(front.push(hex_digit(rest as int % 16)) + had.reverse() =~= front
                + digits@.reverse());
        }
        rest = rest / 16;
        i = i + 1;
    }
    assert(hex_digits(value as int, 16) =~= digits@.reverse());
    while i > 0
        invariant
            i <= 16,
            digits@.len() == 16,
            hex_digits(value as int, 16) == digits@.reverse(),
            out@ == before + seq![0x30u8, 0x78u8] + digits@.reverse().take(16 - i),
        decreases i,
    {
        i = i - 1;
        out.push(digits[i]);
        assert(out@ =~= before + seq![0x30u8, 0x78u8] + digits@.reverse().take(16 - i));
    }
    assert(out@ =~= before + hex_text(value));
}

/// Writes a number in decimal.
pub fn write_u64(out: &mut Vec<u8>, value: u64)
    ensures
        final(out)@ == old(out)@ + dec_text(value as int),
{
    let ghost before = out@;
    let mut digits: Vec<u8> = Vec::new();
    let mut rest: u64 = value;
    while rest >= 10
        invariant
            dec_text(value as int) == dec_text(rest as int) + digits@.reverse(),
        decreases rest,
    {
        let ghost had = digits@;
        digits.push(0x30 + (rest % 10) as u8);
        assert(dec_text(rest as int / 10).push((0x30 + rest % 10) as u8) + had.reverse()
            =~= dec_text(rest as int / 10) + digits@.reverse());
        rest = rest / 10;
    }
    let ghost tail = digits@.reverse();
    digits.push(0x30 + rest as u8);
    assert(digits@.reverse() =~= seq![(0x30 + rest) as u8] + tail);
    let n: usize = digits.len();
    let mut i: usize = n;
    while i > 0
        invariant
            i <= n,
            n == digits@.len(),
            out@ == before + digits@.reverse().take(n - i),
        decreases i,
    {
        i = i - 1;
        out.push(digits[i]);
        assert(out@ =~= before + digits@.reverse().take(n - i));
    }
    assert(digits@.reverse().take(n as int) =~= digits@.reverse());
}

/// Writes a line end.
pub fn write_nl(out: &mut Vec<u8>)
    ensures
        final(out)@ == old(out)@ + line_end(),
{
    let ghost before = out@;
    out.push(0x0D);
    out.push(0x0A);
    assert(out@ =~= before + line_end());
}

/// Writes a string and a line end.
pub fn write_str_nl(out: &mut Vec<u8>, s: &str)
    ensures
        final(out)@ == old(out)@ + text(s@) + line_end(),
{
    write_str(out, s);
    write_nl(out);
}

/// Writes a marker byte for the debug console; nothing unless debugging is on.
pub fn ddbg(out: &mut Vec<u8>, debug: bool, marker: u8)
    ensures
        final(out)@ == if debug {
            old(out)@.push(marker)
        } else {
            old(out)@
        },
{
    if debug {
        out.push(marker);
    }
}

/// Writes the value of a register under a label; nothing unless debugging is on.
pub fn dump_rax(out: &mut Vec<u8>, debug: bool, label: u8, rax: u64)
    ensures
        final(out)@ == if debug {
            old(out)@.push(0x5B).push(label) + text(" RAX=0x"@) + hex_text(rax) + text("]\n"@)
        } else {
            old(out)@
        },
{
    if debug {
        out.push(0x5B);
        out.push(label);
        write_str(out, " RAX=0x");
        write_hex(out, rax);
        write_str(out, "]\n");
    }
}

/// Writes the bytes of a marker; nothing unless debugging is on.
pub fn write_marker_raw(out: &mut Vec<u8>, debug: bool, marker: &[u8])
    ensures
        final(out)@ == if debug {
            old(out)@ + marker@
        } else {
            old(out)@
        },
{
    if debug {
        bytes::append(out, marker);
    }
}

/// The register values that set up the UART: 115200 baud, 8 bits, no parity, one stop
/// bit, FIFO on, as pairs of register number and value in the order of writing.
pub fn init() -> (r: [(u8, u8); 7])
    ensures
        r@ == seq![
            (1u8, 0x00u8),
            (3u8, 0x80u8),
            (0u8, 0x01u8),
            (1u8, 0x00u8),
            (3u8, 0x03u8),
            (2u8, 0xC7u8),
            (4u8, 0x03u8),
        ],
{
    let r: [(u8, u8); 7] = [
        (1, 0x00),
        (3, 0x80),
        (0, 0x01),
        (1, 0x00),
        (3, 0x03),
        (2, 0xC7),
        (4, 0x03),
    ];
    assert(r@ =~= seq![
        (1u8, 0x00u8),
        (3u8, 0x80u8),
        (0u8, 0x01u8),
        (1u8, 0x00u8),
        (3u8, 0x03u8),
        (2u8, 0xC7u8),
        (4u8, 0x03u8),
    ]);
    r
}

} // verus!
