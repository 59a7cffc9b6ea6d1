//! Numbers as text: what a number looks like in decimal and in hexadecimal, and
//! the functions that append it to a string.
use vstd::prelude::*;

verus! {

/// The character of a digit below sixteen.
pub open spec fn digit_char(d: nat) -> char
    recommends
        d < 16,
{
    if d < 10 {
        (('0' as nat) + d) as char
    } else {
        (('a' as nat) + d - 10) as char
    }
}

/// `n` written in a base between two and sixteen, without leading zeros.
pub open spec fn radix_text(n: nat, base: nat) -> Seq<char>
    decreases n,
{
    if base < 2 || n < base {
        seq![digit_char(n)]
    } else {
        proof {
            assert(n / base < n) by (nonlinear_arith)
                requires
                    n >= base,
                    base >= 2,
            ;
        }
        radix_text(n / base, base).push(digit_char(n % base))
    }
}

/// `n` in decimal.
pub open spec fn dec(n: nat) -> Seq<char> {
    radix_text(n, 10)
}

/// An integer in decimal, with a minus sign when negative.
pub open spec fn int_text(i: int) -> Seq<char> {
    if i < 0 {
        "-"@ + dec((-i) as nat)
    } else {
        dec(i as nat)
    }
}

/// `n` in hexadecimal, without a prefix.
pub open spec fn hex(n: nat) -> Seq<char> {
    radix_text(n, 16)
}

/// `n` in hexadecimal behind `0x`.
pub open spec fn hex_text(n: nat) -> Seq<char> {
    "0x"@ + hex(n)
}

/// `n` in hexadecimal behind `0x`, with leading zeros up to `digits` digits.
pub open spec fn hex_padded(n: nat, digits: nat) -> Seq<char> {
    let zeros: nat = if digits > hex(n).len() {
        (digits - hex(n).len()) as nat
    } else {
        0
    };
    "0x"@ + Seq::new(zeros, |i: int| '0') + hex(n)
}

/// A decimal number consists of digits.
pub proof fn digits_only(n: nat)
    ensures
        dec(n).len() > 0,
        forall|k: int| 0 <= k < dec(n).len() ==> '0' <= #[trigger] dec(n)[k] <= '9',
    decreases n,
{
    if n >= 10 {
        digits_only(n / 10);
    }
}

/// Different numbers look different in decimal.
pub proof fn dec_is_injective(i: nat, j: nat)
    requires
        dec(i) == dec(j),
    ensures
        i == j,
    decreases i,
{
    digits_only(i / 10);
    digits_only(j / 10);
    if i < 10 && j < 10 {
        assert(dec(i)[0] == digit_char(i));
        assert(dec(j)[0] == digit_char(j));
    } else if i >= 10 && j >= 10 {
        assert(dec(i).last() == digit_char(i % 10));
        assert(dec(j).last() == digit_char(j % 10));
        assert(i % 10 == j % 10);
        assert(dec(i).drop_last() =~= dec(i / 10));
        assert(dec(j).drop_last() =~= dec(j / 10));
        dec_is_injective(i / 10, j / 10);
    } else if i >= 10 {
        assert(dec(i).len() > 1 && dec(j).len() == 1);
    } else {
        assert(dec(j).len() > 1 && dec(i).len() == 1);
    }
}

/// The text of one digit.
fn digit_str(d: u32) -> (r: &'static str)
    requires
        d < 16,
    ensures
        r@ == seq![digit_char(d as nat)],
{
    proof {
        reveal_strlit("0");
        reveal_strlit("1");
        reveal_strlit("2");
        reveal_strlit("3");
        reveal_strlit("4");
        reveal_strlit("5");
        reveal_strlit("6");
        reveal_strlit("7");
        reveal_strlit("8");
        reveal_strlit("9");
        reveal_strlit("a");
        reveal_strlit("b");
        reveal_strlit("c");
        reveal_strlit("d");
        reveal_strlit("e");
        reveal_strlit("f");
    }
    let r = match d {
        0 => "0",
        1 => "1",
        2 => "2",
        3 => "3",
        4 => "4",
        5 => "5",
        6 => "6",
        7 => "7",
        8 => "8",
        9 => "9",
        10 => "a",
        11 => "b",
        12 => "c",
        13 => "d",
        14 => "e",
        _ => "f",
    };
    assert(r@ =~= seq![digit_char(d as nat)]);
    r
}

/// Appends `n` in the given base.
fn push_radix(buf: &mut String, n: u64, base: u64)
    requires
        2 <= base <= 16,
    ensures
        final(buf)@ == old(buf)@ + radix_text(n as nat, base as nat),
    decreases n,
{
    if n >= base {
        proof {
            assert(n / base < n) by (nonlinear_arith)
                requires
                    n >= base,
                    base >= 2,
            ;
        }
        push_radix(buf, n / base, base);
        let d: u32 = (n % base) as u32;
        buf.append(digit_str(d));
    } else {
        buf.append(digit_str(n as u32));
    }
    assert(buf@ =~= old(buf)@ + radix_text(n as nat, base as nat));
}

/// Appends `n` in decimal.
pub fn push_dec(buf: &mut String, n: u64)
    ensures
        final(buf)@ == old(buf)@ + dec(n as nat),
{
    push_radix(buf, n, 10);
}

/// Appends an integer in decimal.
pub fn push_int(buf: &mut String, i: i32)
    ensures
        final(buf)@ == old(buf)@ + int_text(i as int),
{
    if i < 0 {
        buf.append("-");
        let m: i64 = i as i64;
        push_radix(buf, (-m) as u64, 10);
        assert(buf@ =~= old(buf)@ + int_text(i as int));
    } else {
        push_radix(buf, i as u64, 10);
    }
}

/// Appends `n` in hexadecimal behind `0x`.
pub fn push_hex(buf: &mut String, n: u64)
    ensures
        final(buf)@ == old(buf)@ + hex_text(n as nat),
{
    buf.append("0x");
    push_radix(buf, n, 16);
    assert(buf@ =~= old(buf)@ + hex_text(n as nat));
}

/// How many hexadecimal digits `n` has.
fn hex_len(n: u64) -> (r: u64)
    ensures
        r == hex(n as nat).len(),
        r <= 16,
{
    let mut m: u64 = n;
    let mut r: u64 = 1;
    while m >= 16
        invariant
            1 <= r,
            hex(n as nat).len() == r - 1 + hex(m as nat).len(),
            r <= 16,
            r == 1 ==> m <= 0xffff_ffff_ffff_ffff,
            r == 2 ==> m <= 0xfff_ffff_ffff_ffff,
            r == 3 ==> m <= 0xff_ffff_ffff_ffff,
            r == 4 ==> m <= 0xf_ffff_ffff_ffff,
            r == 5 ==> m <= 0xffff_ffff_ffff,
            r == 6 ==> m <= 0xfff_ffff_ffff,
            r == 7 ==> m <= 0xff_ffff_ffff,
            r == 8 ==> m <= 0xf_ffff_ffff,
            r == 9 ==> m <= 0xffff_ffff,
            r == 10 ==> m <= 0xfff_ffff,
            r == 11 ==> m <= 0xff_ffff,
            r == 12 ==> m <= 0xf_ffff,
            r == 13 ==> m <= 0xffff,
            r == 14 ==> m <= 0xfff,
            r == 15 ==> m <= 0xff,
            r == 16 ==> m <= 0xf,
        decreases m,
    {
        m = m / 16;
        r = r + 1;
    }
    r
}

/// Appends `n` in hexadecimal behind `0x`, with leading zeros up to `digits` digits.
pub fn push_hex_padded(buf: &mut String, n: u64, digits: u64)
    ensures
        final(buf)@ == old(buf)@ + hex_padded(n as nat, digits as nat),
{
    buf.append("0x");
    let len: u64 = hex_len(n);
    let mut k: u64 = len;
    let ghost start = buf@;
    while k < digits
        invariant
            len <= k,
            k <= digits || k == len,
            buf@ == start + Seq::new((k - len) as nat, |i: int| '0'),
        decreases digits - k,
    {
        proof {
            reveal_strlit("0");
        }
        buf.append("0");
        k = k + 1;
        assert(buf@ =~= start + Seq::new((k - len) as nat, |i: int| '0'));
    }
    push_radix(buf, n, 16);
    assert(buf@ =~= old(buf)@ + hex_padded(n as nat, digits as nat));
}

} // verus!
