//! Reading assembly: what a line of assembly tells the machine to do, and that every operation
//! is written as a line that tells to do just that, on the registers where it was placed.
use vstd::prelude::*;

use crate::asm_emitter::{
    KERNARG_BASE_MIN, axis_text, base_text, encodable, float_text, line, mnemonic_of, offset_text,
    op_text, operands_of, ot, range_text, soffset_text, sot, srt, st, vrt, vt,
};
use crate::ir::{
    Op, OpOf, OpText, Operand, SOFFSET_ZERO, SOperand, SReg, SRegPair, VReg, Width, WmmaFormat,
};
use crate::lanes::wrapped;
use crate::regalloc::RegAlloc;
use crate::text::{dec, digit_char, hex, hex_padded, hex_text, int_text, radix_text};

verus! {

// ── Reading text ──
/// What stands before the first `c`, or all of the text.
pub open spec fn up_to(text: Seq<char>, c: char) -> Seq<char>
    decreases text.len(),
{
    if text.len() == 0 || text[0] == c {
        Seq::empty()
    } else {
        seq![text[0]] + up_to(text.skip(1), c)
    }
}

/// What stands behind the first `c`.
pub open spec fn behind(text: Seq<char>, c: char) -> Seq<char>
    decreases text.len(),
{
    if text.len() == 0 {
        Seq::empty()
    } else if text[0] == c {
        text.skip(1)
    } else {
        behind(text.skip(1), c)
    }
}

/// The digit that a character is.
pub open spec fn digit(c: char) -> nat {
    if '0' <= c <= '9' {
        (c as nat - '0' as nat) as nat
    } else if 'a' <= c <= 'f' {
        (c as nat - 'a' as nat + 10) as nat
    } else {
        0
    }
}

/// The number that digits are, in a base.
pub open spec fn number(text: Seq<char>, base: nat) -> nat
    decreases text.len(),
{
    if text.len() == 0 {
        0
    } else {
        number(text.drop_last(), base) * base + digit(text.last())
    }
}

/// The number that a text is: hexadecimal behind `0x`, and negative behind a minus sign.
pub open spec fn number_of(text: Seq<char>) -> int {
    if text.len() >= 2 && text[0] == '0' && text[1] == 'x' {
        number(text.skip(2), 16) as int
    } else if text.len() >= 1 && text[0] == '-' {
        -(number(text.skip(1), 10) as int)
    } else {
        number(text, 10) as int
    }
}

/// What an operand is.
pub enum Arg {
    /// Vector registers, from the first on.
    V(nat, nat),
    /// Scalar registers, from the first on.
    S(nat, nat),
    /// The condition code.
    Vcc,
    /// The execution mask.
    Exec,
    /// No scalar address.
    Off,
    /// A word.
    Word(u32),
}

/// The first of the registers that are named behind the letter of their file, and how many there
/// are: `4` is one, `[4:7]` are four.
pub open spec fn registers(text: Seq<char>) -> (nat, nat) {
    if text.len() > 0 && text[0] == '[' {
        let inner = text.skip(1);
        let first = number(up_to(inner, ':'), 10);
        let last = number(up_to(behind(inner, ':'), ']'), 10);
        (first, (last - first + 1) as nat)
    } else {
        (number(text, 10), 1)
    }
}

/// The operand that a word of a line is.
pub open spec fn arg_of(text: Seq<char>) -> Arg {
    if text == "vcc_lo"@ {
        Arg::Vcc
    } else if text == "exec_lo"@ {
        Arg::Exec
    } else if text == "off"@ {
        Arg::Off
    } else if text == "0.5"@ {
        Arg::Word(0x3F00_0000)
    } else if text == "1.0"@ {
        Arg::Word(0x3F80_0000)
    } else if text == "2.0"@ {
        Arg::Word(0x4000_0000)
    } else if text == "4.0"@ {
        Arg::Word(0x4080_0000)
    } else if text == "-0.5"@ {
        Arg::Word(0xBF00_0000)
    } else if text == "-1.0"@ {
        Arg::Word(0xBF80_0000)
    } else if text == "-2.0"@ {
        Arg::Word(0xC000_0000)
    } else if text == "-4.0"@ {
        Arg::Word(0xC080_0000)
    } else if text.len() > 0 && text[0] == 'v' {
        let (first, n) = registers(text.skip(1));
        Arg::V(first, n)
    } else if text.len() > 0 && text[0] == 's' {
        let (first, n) = registers(text.skip(1));
        Arg::S(first, n)
    } else {
        Arg::Word(wrapped(number_of(text)))
    }
}

/// The first word of an operand.
#[verifier::opaque]
pub open spec fn first_of(part: Seq<char>) -> Arg {
    arg_of(up_to(part, ' '))
}

/// The offset that words say, none being zero.
#[verifier::opaque]
pub open spec fn offset_of(words: Seq<char>) -> int {
    if words.len() == 0 {
        0
    } else if up_to(words, ':') == "offset"@ {
        number_of(behind(words, ':'))
    } else {
        arbitrary()
    }
}

// ── Reading numbers back ──
proof fn lemma_up_to(a: Seq<char>, c: char, b: Seq<char>)
    requires
        forall|i: int| 0 <= i < a.len() ==> #[trigger] a[i] != c,
    ensures
        up_to(a + seq![c] + b, c) == a,
        behind(a + seq![c] + b, c) == b,
    decreases a.len(),
{
    let t = a + seq![c] + b;
    if a.len() == 0 {
        assert(t[0] == c);
        assert(t.skip(1) =~= b);
        assert(a =~= Seq::empty());
    } else {
        assert(t[0] == a[0]);
        assert(t.skip(1) =~= a.skip(1) + seq![c] + b);
        lemma_up_to(a.skip(1), c, b);
        assert(seq![a[0]] + a.skip(1) =~= a);
    }
}

proof fn lemma_up_to_all(a: Seq<char>, c: char)
    requires
        forall|i: int| 0 <= i < a.len() ==> #[trigger] a[i] != c,
    ensures
        up_to(a, c) == a,
        behind(a, c) == Seq::<char>::empty(),
    decreases a.len(),
{
    if a.len() > 0 {
        lemma_up_to_all(a.skip(1), c);
        assert(seq![a[0]] + a.skip(1) =~= a);
    } else {
        assert(a =~= Seq::empty());
    }
}

/// A number is read back as it was written.
pub proof fn numbers_read_back(n: nat, base: nat)
    requires
        base == 10 || base == 16,
    ensures
        number(radix_text(n, base), base) == n,
        radix_text(n, base).len() > 0,
        base == 10 ==> forall|i: int|
            0 <= i < radix_text(n, base).len() ==> '0' <= #[trigger] radix_text(n, base)[i] <= '9',
        base == 16 ==> forall|i: int|
            0 <= i < radix_text(n, base).len() ==> ('0' <= #[trigger] radix_text(n, base)[i] <= '9'
                || 'a' <= radix_text(n, base)[i] <= 'f'),
    decreases n,
{
    let t = radix_text(n, base);
    if n < base {
        assert(t =~= seq![digit_char(n)]);
        assert(t.drop_last() =~= Seq::empty());
        assert(number(t.drop_last(), base) == 0);
        assert(digit(t.last()) == n);
    } else {
        assert(n / base < n) by (nonlinear_arith)
            requires
                n >= base,
                base >= 2,
        ;
        numbers_read_back(n / base, base);
        let d = n % base;
        assert(d < 16);
        assert(t == radix_text(n / base, base).push(digit_char(d)));
        assert(t.drop_last() =~= radix_text(n / base, base));
        assert(digit(t.last()) == d);
        assert((n / base) * base + n % base == n) by (nonlinear_arith)
            requires
                base > 0,
        ;
    }
}

proof fn lemma_zeros(zeros: nat, text: Seq<char>)
    ensures
        number(Seq::new(zeros, |i: int| '0') + text, 16) == number(text, 16),
    decreases text.len(), zeros,
{
    let z = Seq::new(zeros, |i: int| '0');
    if text.len() > 0 {
        lemma_zeros(zeros, text.drop_last());
        assert((z + text).drop_last() =~= z + text.drop_last());
        assert((z + text).last() == text.last());
    } else if zeros > 0 {
        let y = Seq::new((zeros - 1) as nat, |i: int| '0');
        lemma_zeros((zeros - 1) as nat, text);
        assert((z + text).drop_last() =~= y + text);
        assert((z + text).last() == '0');
    } else {
        assert(z + text =~= text);
    }
}

/// Whether a text can be a word of a line.
#[verifier::opaque]
spec fn solid(text: Seq<char>) -> bool {
    &&& text.len() > 0
    &&& forall|i: int| 0 <= i < text.len() ==> #[trigger] text[i] != ' '
}

proof fn lemma_dec(n: nat)
    ensures
        number_of(dec(n)) == n,
        number(dec(n), 10) == n,
        solid(dec(n)),
        forall|i: int| 0 <= i < dec(n).len() ==> '0' <= #[trigger] dec(n)[i] <= '9',
{
    reveal(solid);
    numbers_read_back(n, 10);
    let t = dec(n);
    assert('0' <= t[0] <= '9');
    if t.len() >= 2 {
        assert('0' <= t[1] <= '9');
    }
    assert forall|i: int| 0 <= i < t.len() implies #[trigger] t[i] != ' ' by {
        assert('0' <= t[i]);
    }
}

proof fn lemma_int(n: int)
    ensures
        number_of(int_text(n)) == n,
        solid(int_text(n)),
        int_text(n)[0] == '-' || '0' <= int_text(n)[0] <= '9',
        forall|i: int| 1 <= i < int_text(n).len() ==> '0' <= #[trigger] int_text(n)[i] <= '9',
{
    reveal(solid);
    reveal_strlit("-");
    if n < 0 {
        let d = dec((-n) as nat);
        lemma_dec((-n) as nat);
        let t = int_text(n);
        assert(t[0] == '-');
        assert(t.skip(1) =~= d);
        assert forall|i: int| 1 <= i < t.len() implies '0' <= #[trigger] t[i] <= '9' by {
            assert(t[i] == d[i - 1]);
        }
    } else {
        lemma_dec(n as nat);
    }
}

proof fn lemma_hex(n: nat, digits: nat)
    ensures
        number_of(hex_text(n)) == n,
        number_of(hex_padded(n, digits)) == n,
        solid(hex_text(n)),
        solid(hex_padded(n, digits)),
        hex_text(n)[0] == '0' && hex_text(n)[1] == 'x' && hex_text(n).len() > 2,
        hex_padded(n, digits)[0] == '0' && hex_padded(n, digits)[1] == 'x' && hex_padded(
            n,
            digits,
        ).len() > 2,
{
    reveal(solid);
    reveal_strlit("0x");
    numbers_read_back(n, 16);
    let h = hex(n);
    let t = hex_text(n);
    assert(t.skip(2) =~= h);
    let zeros: nat = if digits > h.len() {
        (digits - h.len()) as nat
    } else {
        0
    };
    let z = Seq::new(zeros, |i: int| '0');
    let p = hex_padded(n, digits);
    assert(p == "0x"@ + z + h);
    assert(p.skip(2) =~= z + h);
    lemma_zeros(zeros, h);
    assert forall|i: int| 0 <= i < t.len() implies #[trigger] t[i] != ' ' by {
        if i >= 2 {
            assert(t[i] == h[i - 2]);
        }
    }
    assert forall|i: int| 0 <= i < p.len() implies #[trigger] p[i] != ' ' by {
        if i >= 2 + zeros {
            assert(p[i] == h[i - 2 - zeros]);
        } else if i >= 2 {
            assert(p[i] == z[i - 2]);
        }
    }
}

// ── Reading operands back ──
proof fn lemma_special()
    ensures
        arg_of("vcc_lo"@) is Vcc,
        arg_of("exec_lo"@) is Exec,
        arg_of("off"@) is Off,
        arg_of("0"@) == Arg::Word(0),
        solid("vcc_lo"@),
        solid("exec_lo"@),
        solid("off"@),
        solid("0"@),
{
    reveal(solid);
    lemma_literals();
    let t = "0"@;
    assert(t.drop_last() =~= Seq::empty());
    assert(number(t.drop_last(), 10) == 0);
    assert(number(t, 10) == 0);
}

/// What the words that are no registers and no numbers look like.
proof fn lemma_literals()
    ensures
        "vcc_lo"@.len() == 6 && "vcc_lo"@[0] == 'v' && "vcc_lo"@[1] == 'c' && "vcc_lo"@[2] == 'c'
            && "vcc_lo"@[3] == '_' && "vcc_lo"@[4] == 'l' && "vcc_lo"@[5] == 'o',
        "exec_lo"@.len() == 7 && "exec_lo"@[0] == 'e' && "exec_lo"@[1] == 'x' && "exec_lo"@[2]
            == 'e' && "exec_lo"@[3] == 'c' && "exec_lo"@[4] == '_' && "exec_lo"@[5] == 'l'
            && "exec_lo"@[6] == 'o',
        "off"@.len() == 3 && "off"@[0] == 'o' && "off"@[1] == 'f' && "off"@[2] == 'f',
        "0"@.len() == 1 && "0"@[0] == '0',
        "0.5"@.len() == 3 && "0.5"@[0] == '0' && "0.5"@[1] == '.' && "0.5"@[2] == '5',
        "1.0"@.len() == 3 && "1.0"@[0] == '1' && "1.0"@[1] == '.' && "1.0"@[2] == '0',
        "2.0"@.len() == 3 && "2.0"@[0] == '2' && "2.0"@[1] == '.' && "2.0"@[2] == '0',
        "4.0"@.len() == 3 && "4.0"@[0] == '4' && "4.0"@[1] == '.' && "4.0"@[2] == '0',
        "-0.5"@.len() == 4 && "-0.5"@[0] == '-' && "-0.5"@[1] == '0' && "-0.5"@[2] == '.'
            && "-0.5"@[3] == '5',
        "-1.0"@.len() == 4 && "-1.0"@[0] == '-' && "-1.0"@[1] == '1' && "-1.0"@[2] == '.'
            && "-1.0"@[3] == '0',
        "-2.0"@.len() == 4 && "-2.0"@[0] == '-' && "-2.0"@[1] == '2' && "-2.0"@[2] == '.'
            && "-2.0"@[3] == '0',
        "-4.0"@.len() == 4 && "-4.0"@[0] == '-' && "-4.0"@[1] == '4' && "-4.0"@[2] == '.'
            && "-4.0"@[3] == '0',
        "v"@ == seq!['v'],
        "s"@ == seq!['s'],
{
    reveal_strlit("vcc_lo");
    reveal_strlit("exec_lo");
    reveal_strlit("off");
    reveal_strlit("0");
    reveal_strlit("0.5");
    reveal_strlit("1.0");
    reveal_strlit("2.0");
    reveal_strlit("4.0");
    reveal_strlit("-0.5");
    reveal_strlit("-1.0");
    reveal_strlit("-2.0");
    reveal_strlit("-4.0");
    reveal_strlit("v");
    reveal_strlit("s");
    assert("v"@ =~= seq!['v']);
    assert("s"@ =~= seq!['s']);
}

proof fn lemma_registers(c: char, first: nat, n: nat)
    requires
        n >= 1,
        c == 'v' || c == 's',
    ensures
        solid(range_text(seq![c], first, n)),
        arg_of(range_text(seq![c], first, n)) == if c == 'v' {
            Arg::V(first, n)
        } else {
            Arg::S(first, n)
        },
{
    reveal(solid);
    lemma_literals();
    let t = range_text(seq![c], first, n);
    assert(t[0] == c);
    lemma_dec(first);
    let a = dec(first);
    if n == 1 {
        assert(t.skip(1) =~= a);
        assert(t[1] == a[0]);
        assert forall|i: int| 0 <= i < t.len() implies #[trigger] t[i] != ' ' by {
            if i >= 1 {
                assert(t[i] == a[i - 1]);
            }
        }
    } else {
        reveal_strlit("[");
        reveal_strlit(":");
        reveal_strlit("]");
        let last = (first + n - 1) as nat;
        lemma_dec(last);
        let b = dec(last);
        let inner = a + seq![':'] + (b + seq![']'] + Seq::empty());
        assert(t =~= seq![c] + seq!['['] + inner);
        assert(t.skip(1)[0] == '[');
        assert(t[1] == '[');
        assert(t.skip(1).skip(1) =~= inner);
        assert forall|i: int| 0 <= i < a.len() implies #[trigger] a[i] != ':' by {
            assert('0' <= a[i] <= '9');
        }
        assert forall|i: int| 0 <= i < b.len() implies #[trigger] b[i] != ']' by {
            assert('0' <= b[i] <= '9');
        }
        lemma_up_to(a, ':', b + seq![']'] + Seq::empty());
        lemma_up_to(b, ']', Seq::empty());
        assert forall|i: int| 0 <= i < t.len() implies #[trigger] t[i] != ' ' by {
            if 2 <= i < 2 + a.len() {
                assert(t[i] == a[i - 2]);
            } else if i >= 3 + a.len() && i < 3 + a.len() + b.len() {
                assert(t[i] == b[i - 3 - a.len()]);
            }
        }
    }
}

proof fn lemma_word(n: int)
    ensures
        solid(int_text(n)),
        arg_of(int_text(n)) == Arg::Word(wrapped(n)),
{
    reveal(solid);
    lemma_literals();
    lemma_int(n);
    let t = int_text(n);
    if t.len() >= 2 {
        assert('0' <= t[1] <= '9');
    }
    if t.len() >= 3 {
        assert('0' <= t[2] <= '9');
    }
}

proof fn lemma_hex_word(n: u32, digits: nat)
    ensures
        solid(hex_text(n as nat)),
        solid(hex_padded(n as nat, digits)),
        arg_of(hex_text(n as nat)) == Arg::Word(n),
        arg_of(hex_padded(n as nat, digits)) == Arg::Word(n),
{
    reveal(solid);
    lemma_literals();
    lemma_hex(n as nat, digits);
}

/// The word that the bits of a float are read as: a zero has no sign.
pub open spec fn float_word(bits: u32) -> u32 {
    if bits == 0x8000_0000 {
        0
    } else {
        bits
    }
}

proof fn lemma_float(bits: u32)
    ensures
        solid(float_text(bits)),
        arg_of(float_text(bits)) == Arg::Word(float_word(bits)),
{
    reveal(solid);
    lemma_literals();
    lemma_special();
    lemma_hex_word(bits, 8);
}

/// Behind a word.
proof fn lemma_first(a: Seq<char>, more: Seq<char>)
    requires
        solid(a),
    ensures
        first_of(a) == arg_of(a),
        first_of(a + seq![' '] + more) == arg_of(a),
        behind(a, ' ') == Seq::<char>::empty(),
        behind(a + seq![' '] + more, ' ') == more,
{
    reveal(solid);
    reveal(first_of);
    lemma_up_to_all(a, ' ');
    lemma_up_to(a, ' ', more);
}

proof fn lemma_offset(a: Seq<char>, n: int)
    requires
        solid(a),
    ensures
        first_of(a + offset_text(n)) == arg_of(a),
        offset_of(behind(a + offset_text(n), ' ')) == n,
        offset_of(("offset:"@ + int_text(n))) == n,
        offset_text(n) == if n == 0 {
            Seq::<char>::empty()
        } else {
            seq![' '] + ("offset:"@ + int_text(n))
        },
{
    reveal(solid);
    reveal(offset_of);
    reveal_strlit(" offset:");
    reveal_strlit("offset:");
    reveal_strlit("offset");
    reveal_strlit("");
    lemma_int(n);
    let words = "offset"@ + seq![':'] + int_text(n);
    assert("offset:"@ + int_text(n) =~= words);
    lemma_up_to("offset"@, ':', int_text(n));
    if n == 0 {
        assert(offset_text(n) =~= Seq::empty());
        assert(a + offset_text(n) =~= a);
        lemma_first(a, Seq::empty());
    } else {
        assert(offset_text(n) =~= seq![' '] + words);
        assert(a + offset_text(n) =~= a + seq![' '] + words);
        lemma_first(a, words);
    }
}

/// An offset that is always written.
proof fn lemma_written_offset(a: Seq<char>, n: nat)
    requires
        solid(a),
    ensures
        first_of(a + " offset:"@ + dec(n)) == arg_of(a),
        offset_of(behind(a + " offset:"@ + dec(n), ' ')) == n,
        first_of(a + " offset:"@ + hex_padded(n, 4)) == arg_of(a),
        offset_of(behind(a + " offset:"@ + hex_padded(n, 4), ' ')) == n,
{
    reveal(solid);
    reveal(offset_of);
    reveal_strlit(" offset:");
    reveal_strlit("offset");
    lemma_dec(n);
    lemma_hex(n, 4);
    let x = "offset"@ + seq![':'] + dec(n);
    let y = "offset"@ + seq![':'] + hex_padded(n, 4);
    lemma_up_to("offset"@, ':', dec(n));
    lemma_up_to("offset"@, ':', hex_padded(n, 4));
    assert(a + " offset:"@ + dec(n) =~= a + seq![' '] + x);
    assert(a + " offset:"@ + hex_padded(n, 4) =~= a + seq![' '] + y);
    lemma_first(a, x);
    lemma_first(a, y);
}

// ── Reading lines ──
/// The vector registers that a part of a line names, if there are `n`.
pub open spec fn v_of(part: Seq<char>, n: nat) -> Option<VReg> {
    match first_of(part) {
        Arg::V(first, m) => if m == n {
            Some(VReg(first as u32))
        } else {
            None
        },
        _ => None,
    }
}

/// The scalar registers that a part of a line names, if there are `n`.
pub open spec fn s_of(part: Seq<char>, n: nat) -> Option<SReg> {
    match first_of(part) {
        Arg::S(first, m) => if m == n {
            Some(SReg(first as u32))
        } else {
            None
        },
        _ => None,
    }
}

/// The source of a vector operation that a part of a line names.
pub open spec fn operand_of(part: Seq<char>) -> Option<Operand> {
    match first_of(part) {
        Arg::V(first, m) => if m == 1 {
            Some(Operand::VReg(VReg(first as u32)))
        } else {
            None
        },
        Arg::Word(x) => Some(Operand::Literal(x)),
        _ => None,
    }
}

/// The source of a scalar operation that a part of a line names.
pub open spec fn soperand_of(part: Seq<char>) -> Option<SOperand> {
    match first_of(part) {
        Arg::S(first, m) => if m == 1 {
            Some(SOperand::SReg(SReg(first as u32)))
        } else {
            None
        },
        Arg::Word(x) => Some(SOperand::Literal(x)),
        Arg::Vcc => Some(SOperand::Vcc),
        _ => None,
    }
}

/// The word that a part of a line is.
pub open spec fn word_of(part: Seq<char>) -> Option<u32> {
    match first_of(part) {
        Arg::Word(x) => Some(x),
        _ => None,
    }
}

/// The operation of one source that a name is of.
pub open spec fn unary_named(name: Seq<char>, dst: VReg, src: VReg) -> Option<OpText> {
    if name == "v_cvt_f32_u32"@ {
        Some(OpOf::VCvtF32U32 { dst, src })
    } else if name == "v_cvt_u32_f32"@ {
        Some(OpOf::VCvtU32F32 { dst, src })
    } else if name == "v_rsq_f32"@ {
        Some(OpOf::VRsqF32 { dst, src })
    } else if name == "v_exp_f32"@ {
        Some(OpOf::VExpF32 { dst, src })
    } else if name == "v_sin_f32"@ {
        Some(OpOf::VSinF32 { dst, src })
    } else if name == "v_cos_f32"@ {
        Some(OpOf::VCosF32 { dst, src })
    } else if name == "v_rcp_f32"@ {
        Some(OpOf::VRcpF32 { dst, src })
    } else if name == "v_sqrt_f32"@ {
        Some(OpOf::VSqrtF32 { dst, src })
    } else if name == "v_log_f32"@ {
        Some(OpOf::VLog2F32 { dst, src })
    } else {
        None
    }
}

/// The operation on the local data share that a name is of, and the parts of a line.
pub open spec fn share_named(name: Seq<char>, x: Seq<char>, y: Seq<char>) -> Option<OpText> {
    if name == "ds_load_b32"@ {
        match (v_of(x, 1), v_of(y, 1)) {
            (Some(dst), Some(vaddr)) => Some(
                OpOf::DsLoadB32 { dst, vaddr, offset: offset_of(behind(y, ' ')) as u16 },
            ),
            _ => None,
        }
    } else if name == "ds_load_b64"@ {
        match (v_of(x, 2), v_of(y, 1)) {
            (Some(dst), Some(vaddr)) => Some(
                OpOf::DsLoadB64 { dst, vaddr, offset: offset_of(behind(y, ' ')) as u16 },
            ),
            _ => None,
        }
    } else if name == "ds_load_b128"@ {
        match (v_of(x, 4), v_of(y, 1)) {
            (Some(dst), Some(vaddr)) => Some(
                OpOf::DsLoadB128 { dst, vaddr, offset: offset_of(behind(y, ' ')) as u16 },
            ),
            _ => None,
        }
    } else if name == "ds_load_u16"@ {
        match (v_of(x, 1), v_of(y, 1)) {
            (Some(dst), Some(vaddr)) => Some(
                OpOf::DsLoadU16 { dst, vaddr, offset: offset_of(behind(y, ' ')) as u16 },
            ),
            _ => None,
        }
    } else if name == "ds_load_u16_d16"@ {
        match (v_of(x, 1), v_of(y, 1)) {
            (Some(dst), Some(vaddr)) => Some(
                OpOf::DsLoadU16D16 { dst, vaddr, offset: offset_of(behind(y, ' ')) as u16 },
            ),
            _ => None,
        }
    } else if name == "ds_load_u16_d16_hi"@ {
        match (v_of(x, 1), v_of(y, 1)) {
            (Some(dst), Some(vaddr)) => Some(
                OpOf::DsLoadU16D16Hi { dst, vaddr, offset: offset_of(behind(y, ' ')) as u16 },
            ),
            _ => None,
        }
    } else if name == "ds_store_b16"@ {
        match (v_of(x, 1), v_of(y, 1)) {
            (Some(vaddr), Some(src)) => Some(
                OpOf::DsStoreB16 { vaddr, src, offset: offset_of(behind(y, ' ')) as u16 },
            ),
            _ => None,
        }
    } else if name == "ds_store_b32"@ {
        match (v_of(x, 1), v_of(y, 1)) {
            (Some(vaddr), Some(src)) => Some(
                OpOf::DsStoreB32 { vaddr, src, offset: offset_of(behind(y, ' ')) as u16 },
            ),
            _ => None,
        }
    } else if name == "ds_store_b64"@ {
        match (v_of(x, 1), v_of(y, 2)) {
            (Some(vaddr), Some(src)) => Some(
                OpOf::DsStoreB64 { vaddr, src, offset: offset_of(behind(y, ' ')) as u16 },
            ),
            _ => None,
        }
    } else if name == "ds_store_b128"@ {
        match (v_of(x, 1), v_of(y, 4)) {
            (Some(vaddr), Some(src)) => Some(
                OpOf::DsStoreB128 { vaddr, src, offset: offset_of(behind(y, ' ')) as u16 },
            ),
            _ => None,
        }
    } else if name == "ds_swizzle_b32"@ {
        match (v_of(x, 1), v_of(y, 1)) {
            (Some(dst), Some(src)) => Some(
                OpOf::DsSwizzle { dst, src, offset: offset_of(behind(y, ' ')) as u16 },
            ),
            _ => None,
        }
    } else {
        None
    }
}

/// The scalar operation of two operands that a name is of, and the parts of a line.
pub open spec fn scalar_named(name: Seq<char>, x: Seq<char>, y: Seq<char>) -> Option<OpText> {
    if name == "s_mov_b32"@ {
        match (first_of(x), s_of(x, 1), soperand_of(y)) {
            (_, Some(dst), Some(src)) => Some(OpOf::SMov { dst, src }),
            (Arg::Vcc, _, Some(SOperand::Literal(0))) => Some(OpOf::ClearVcc),
            (Arg::Vcc, _, Some(SOperand::SReg(src))) => Some(OpOf::SMovToVcc { src }),
            (Arg::Exec, _, Some(SOperand::SReg(src))) => Some(OpOf::RestoreExec { src }),
            _ => None,
        }
    } else if name == "s_cmp_lt_u32"@ {
        match (s_of(x, 1), s_of(y, 1)) {
            (Some(src0), Some(src1)) => Some(OpOf::SCmpLtU32 { src0, src1 }),
            _ => None,
        }
    } else if name == "s_cmp_ge_u32"@ {
        match (s_of(x, 1), s_of(y, 1)) {
            (Some(src0), Some(src1)) => Some(OpOf::SCmpGeU32 { src0, src1 }),
            _ => None,
        }
    } else if name == "s_cmp_eq_u32"@ {
        match (s_of(x, 1), soperand_of(y)) {
            (Some(src0), Some(src1)) => Some(OpOf::SCmpEqU32 { src0, src1 }),
            _ => None,
        }
    } else if name == "s_and_saveexec_b32"@ {
        match (s_of(x, 1), first_of(y)) {
            (Some(dst), Arg::Vcc) => Some(OpOf::SaveExec { dst }),
            _ => None,
        }
    } else if name == "v_readfirstlane_b32"@ {
        match (s_of(x, 1), v_of(y, 1)) {
            (Some(dst), Some(src)) => Some(OpOf::VReadfirstlane { dst, src }),
            _ => None,
        }
    } else if name == "v_mov_b32"@ {
        match (v_of(x, 1), operand_of(y), s_of(y, 1)) {
            (Some(dst), Some(src), _) => Some(OpOf::VMov { dst, src }),
            (Some(dst), None, Some(src)) => Some(OpOf::VMovFromSgpr { dst, src }),
            _ => None,
        }
    } else {
        None
    }
}

/// The operation of two sources that a name is of.
pub open spec fn binary_named(
    name: Seq<char>,
    dst: VReg,
    src0: Operand,
    src1: Operand,
) -> Option<OpText> {
    if name == "v_add_f32"@ {
        Some(OpOf::VAddF32 { dst, src0, src1 })
    } else if name == "v_mul_f32"@ {
        Some(OpOf::VMulF32 { dst, src0, src1 })
    } else if name == "v_sub_f32"@ {
        Some(OpOf::VSubF32 { dst, src0, src1 })
    } else if name == "v_max_f32"@ {
        Some(OpOf::VMaxF32 { dst, src0, src1 })
    } else if name == "v_min_f32"@ {
        Some(OpOf::VMinF32 { dst, src0, src1 })
    } else if name == "v_min_u32"@ {
        Some(OpOf::VMinU32 { dst, src0, src1 })
    } else if name == "v_add_nc_u32"@ {
        Some(OpOf::VAddU32 { dst, src0, src1 })
    } else if name == "v_sub_u32"@ {
        Some(OpOf::VSubU32 { dst, src0, src1 })
    } else if name == "v_and_b32"@ {
        Some(OpOf::VAndB32 { dst, src0, src1 })
    } else if name == "v_or_b32"@ {
        Some(OpOf::VOrB32 { dst, src0, src1 })
    } else if name == "v_xor_b32"@ {
        Some(OpOf::VXorB32 { dst, src0, src1 })
    } else {
        None
    }
}

/// The shift or product that a name is of, and the parts of a line.
pub open spec fn shift_named(
    name: Seq<char>,
    dst: VReg,
    y: Seq<char>,
    z: Seq<char>,
) -> Option<OpText> {
    if name == "v_mul_lo_u32"@ {
        match (v_of(y, 1), v_of(z, 1)) {
            (Some(src0), Some(src1)) => Some(OpOf::VMulLoU32 { dst, src0, src1 }),
            _ => None,
        }
    } else if name == "v_lshlrev_b32"@ {
        match (word_of(y), v_of(z, 1)) {
            (Some(n), Some(src)) => Some(OpOf::VLshlrevB32 { dst, shift: n as u8, src }),
            _ => None,
        }
    } else if name == "v_lshrrev_b32"@ {
        match (word_of(y), v_of(y, 1), v_of(z, 1)) {
            (Some(n), _, Some(src)) => Some(OpOf::VLshrrevB32 { dst, shift: n as u8, src }),
            (None, Some(shift), Some(src)) => Some(OpOf::VLshrrevB32Vgpr { dst, shift, src }),
            _ => None,
        }
    } else {
        None
    }
}

/// The comparison that a name is of.
pub open spec fn comparison_named(name: Seq<char>, src0: Operand, src1: Operand) -> Option<OpText> {
    if name == "v_cmp_lt_u32"@ {
        Some(OpOf::VCmpLtU32 { src0, src1 })
    } else if name == "v_cmp_ge_u32"@ {
        Some(OpOf::VCmpGeU32 { src0, src1 })
    } else if name == "v_cmp_gt_u32"@ {
        Some(OpOf::VCmpGtU32 { src0, src1 })
    } else if name == "v_cmp_eq_u32"@ {
        Some(OpOf::VCmpEqU32 { src0, src1 })
    } else if name == "v_cmp_eq_f32"@ {
        Some(OpOf::VCmpEqF32 { src0, src1 })
    } else if name == "v_cmp_gt_f32"@ {
        Some(OpOf::VCmpGtF32 { src0, src1 })
    } else if name == "v_cmp_lt_f32"@ {
        Some(OpOf::VCmpLtF32 { src0, src1 })
    } else if name == "v_cmp_ge_f32"@ {
        Some(OpOf::VCmpGeF32 { src0, src1 })
    } else if name == "v_cmp_ge_i32"@ {
        match (src0, src1) {
            (Operand::VReg(src0), Operand::VReg(src1)) => Some(OpOf::VCmpGeI32 { src0, src1 }),
            _ => None,
        }
    } else {
        None
    }
}

/// The scalar operation of two sources that a name is of, and the parts of a line.
pub open spec fn scalar_result_named(
    name: Seq<char>,
    dst: SReg,
    y: Seq<char>,
    z: Seq<char>,
) -> Option<OpText> {
    if name == "s_add_u32"@ {
        match (s_of(y, 1), soperand_of(z)) {
            (Some(src0), Some(src1)) => Some(OpOf::SAddU32 { dst, src0, src1 }),
            _ => None,
        }
    } else if name == "s_addc_u32"@ {
        match (s_of(y, 1), soperand_of(z)) {
            (Some(src0), Some(src1)) => Some(OpOf::SAddcU32 { dst, src0, src1 }),
            _ => None,
        }
    } else if name == "s_sub_u32"@ {
        match (s_of(y, 1), soperand_of(z)) {
            (Some(src0), Some(src1)) => Some(OpOf::SSubU32 { dst, src0, src1 }),
            _ => None,
        }
    } else if name == "s_and_b32"@ {
        match (s_of(y, 1), soperand_of(z)) {
            (Some(src0), Some(src1)) => Some(OpOf::SAndB32 { dst, src0, src1 }),
            _ => None,
        }
    } else if name == "s_mul_i32"@ {
        match (s_of(y, 1), s_of(z, 1)) {
            (Some(src0), Some(src1)) => Some(OpOf::SMulI32 { dst, src0, src1 }),
            _ => None,
        }
    } else if name == "s_lshl_b32"@ {
        match (s_of(y, 1), word_of(z)) {
            (Some(src), Some(n)) => Some(OpOf::SLshlB32 { dst, src, shift: n as u8 }),
            _ => None,
        }
    } else if name == "s_lshr_b32"@ {
        match (s_of(y, 1), word_of(z)) {
            (Some(src), Some(n)) => Some(OpOf::SLshrB32 { dst, src, shift: n as u8 }),
            _ => None,
        }
    } else {
        None
    }
}

/// The scalar load that a name is of, and the parts of a line.
pub open spec fn scalar_load_named(
    name: Seq<char>,
    x: Seq<char>,
    base: SReg,
    offset: u32,
) -> Option<OpText> {
    if name == "s_load_b32"@ {
        match s_of(x, 1) {
            Some(dst) => Some(
                OpOf::ScalarLoad { dst, base: SRegPair(base.0), offset, width: Width::B32 },
            ),
            None => None,
        }
    } else if name == "s_load_b64"@ {
        match s_of(x, 2) {
            Some(dst) => Some(
                OpOf::ScalarLoad { dst, base: SRegPair(base.0), offset, width: Width::B64 },
            ),
            None => None,
        }
    } else if name == "s_load_b128"@ {
        match s_of(x, 4) {
            Some(dst) => Some(
                OpOf::ScalarLoad { dst, base: SRegPair(base.0), offset, width: Width::B128 },
            ),
            None => None,
        }
    } else {
        None
    }
}

/// The access to global memory that a name is of, and the parts of a line.
pub open spec fn global_named(
    name: Seq<char>,
    x: Seq<char>,
    y: Seq<char>,
    offset: i32,
) -> Option<OpText> {
    if name == "global_load_u16"@ {
        match (v_of(x, 1), v_of(y, 2)) {
            (Some(dst), Some(addr)) => Some(
                OpOf::GlobalLoad { dst, addr, width: Width::B16, offset },
            ),
            _ => None,
        }
    } else if name == "global_load_b32"@ {
        match (v_of(x, 1), v_of(y, 2)) {
            (Some(dst), Some(addr)) => Some(
                OpOf::GlobalLoad { dst, addr, width: Width::B32, offset },
            ),
            _ => None,
        }
    } else if name == "global_load_b64"@ {
        match (v_of(x, 2), v_of(y, 2)) {
            (Some(dst), Some(addr)) => Some(
                OpOf::GlobalLoad { dst, addr, width: Width::B64, offset },
            ),
            _ => None,
        }
    } else if name == "global_load_b128"@ {
        match (v_of(x, 4), v_of(y, 2)) {
            (Some(dst), Some(addr)) => Some(
                OpOf::GlobalLoad { dst, addr, width: Width::B128, offset },
            ),
            _ => None,
        }
    } else if name == "global_store_b16"@ {
        match (v_of(x, 2), v_of(y, 1)) {
            (Some(addr), Some(src)) => Some(
                OpOf::GlobalStore { addr, src, width: Width::B16, offset },
            ),
            _ => None,
        }
    } else if name == "global_store_b32"@ {
        match (v_of(x, 2), v_of(y, 1)) {
            (Some(addr), Some(src)) => Some(
                OpOf::GlobalStore { addr, src, width: Width::B32, offset },
            ),
            _ => None,
        }
    } else if name == "global_store_b64"@ {
        match (v_of(x, 2), v_of(y, 2)) {
            (Some(addr), Some(src)) => Some(
                OpOf::GlobalStore { addr, src, width: Width::B64, offset },
            ),
            _ => None,
        }
    } else if name == "global_store_b128"@ {
        match (v_of(x, 2), v_of(y, 4)) {
            (Some(addr), Some(src)) => Some(
                OpOf::GlobalStore { addr, src, width: Width::B128, offset },
            ),
            _ => None,
        }
    } else if name == "global_atomic_add_f32"@ {
        match (v_of(x, 2), v_of(y, 1)) {
            (Some(addr), Some(src)) => Some(OpOf::GlobalAtomicAddF32 { addr, src, offset }),
            _ => None,
        }
    } else {
        None
    }
}

/// The access to a buffer that a name is of, and the parts of a line.
pub open spec fn buffer_named(
    name: Seq<char>,
    x: Seq<char>,
    voffset: VReg,
    srsrc: SReg,
    soffset: SReg,
    offset: u16,
) -> Option<OpText> {
    if name == "buffer_load_u16"@ {
        match v_of(x, 1) {
            Some(dst) => Some(
                OpOf::BufferLoad { dst, voffset, srsrc, width: Width::B16, offset, soffset },
            ),
            None => None,
        }
    } else if name == "buffer_load_b32"@ {
        match v_of(x, 1) {
            Some(dst) => Some(
                OpOf::BufferLoad { dst, voffset, srsrc, width: Width::B32, offset, soffset },
            ),
            None => None,
        }
    } else if name == "buffer_load_b64"@ {
        match v_of(x, 2) {
            Some(dst) => Some(
                OpOf::BufferLoad { dst, voffset, srsrc, width: Width::B64, offset, soffset },
            ),
            None => None,
        }
    } else if name == "buffer_load_b128"@ {
        match v_of(x, 4) {
            Some(dst) => Some(
                OpOf::BufferLoad { dst, voffset, srsrc, width: Width::B128, offset, soffset },
            ),
            None => None,
        }
    } else if name == "buffer_store_b16"@ {
        match v_of(x, 1) {
            Some(src) => Some(
                OpOf::BufferStore { voffset, src, srsrc, width: Width::B16, offset, soffset },
            ),
            None => None,
        }
    } else if name == "buffer_store_b32"@ {
        match v_of(x, 1) {
            Some(src) => Some(
                OpOf::BufferStore { voffset, src, srsrc, width: Width::B32, offset, soffset },
            ),
            None => None,
        }
    } else if name == "buffer_store_b64"@ {
        match v_of(x, 2) {
            Some(src) => Some(
                OpOf::BufferStore { voffset, src, srsrc, width: Width::B64, offset, soffset },
            ),
            None => None,
        }
    } else if name == "buffer_store_b128"@ {
        match v_of(x, 4) {
            Some(src) => Some(
                OpOf::BufferStore { voffset, src, srsrc, width: Width::B128, offset, soffset },
            ),
            None => None,
        }
    } else {
        None
    }
}

/// The matrix product that a name is of.
pub open spec fn matrix_named(
    name: Seq<char>,
    dst: VReg,
    a: VReg,
    b: VReg,
    c: VReg,
) -> Option<OpText> {
    if name == "v_wmma_f32_16x16x16_bf16"@ {
        Some(OpOf::Wmma { dst, a, b, c, format: WmmaFormat::BF16_F32 })
    } else if name == "v_wmma_f32_16x16x16_f16"@ {
        Some(OpOf::Wmma { dst, a, b, c, format: WmmaFormat::F16_F32 })
    } else if name == "v_wmma_bf16_16x16x16_bf16"@ {
        Some(OpOf::Wmma { dst, a, b, c, format: WmmaFormat::BF16_BF16 })
    } else {
        None
    }
}

/// The jump that a name is of.
pub open spec fn jump_named(name: Seq<char>, target: Seq<char>) -> Option<OpText> {
    if name == "s_branch"@ {
        Some(OpOf::Branch(target))
    } else if name == "s_cbranch_scc0"@ {
        Some(OpOf::BranchScc0(target))
    } else if name == "s_cbranch_scc1"@ {
        Some(OpOf::BranchScc1(target))
    } else if name == "s_cbranch_vccz"@ {
        Some(OpOf::BranchVccz(target))
    } else {
        None
    }
}

/// What a line of assembly with two operands tells to do.
#[verifier::opaque]
pub open spec fn pair(name: Seq<char>, x: Seq<char>, y: Seq<char>) -> Option<OpText> {
    let first = match (v_of(x, 1), v_of(y, 1)) {
        (Some(dst), Some(src)) => unary_named(name, dst, src),
        _ => None,
    };
    if first is Some {
        first
    } else if share_named(name, x, y) is Some {
        share_named(name, x, y)
    } else {
        scalar_named(name, x, y)
    }
}

/// What a line of assembly with three operands tells to do.
#[verifier::opaque]
pub open spec fn triple(
    name: Seq<char>,
    x: Seq<char>,
    y: Seq<char>,
    z: Seq<char>,
) -> Option<OpText> {
    match (first_of(x), first_of(y), first_of(z)) {
        (_, _, Arg::Off) => global_named(name, x, y, offset_of(behind(z, ' ')) as i32),
        (Arg::Vcc, _, _) => match (operand_of(y), operand_of(z)) {
            (Some(src0), Some(src1)) => comparison_named(name, src0, src1),
            _ => None,
        },
        (Arg::Exec, Arg::Exec, Arg::S(first, _)) => if name == "s_xor_b32"@ {
            Some(OpOf::XorExec { saved: SReg(first as u32) })
        } else {
            None
        },
        (Arg::V(first, _), _, _) => {
            let dst = VReg(first as u32);
            match (operand_of(y), operand_of(z)) {
                (Some(src0), Some(src1)) => {
                    let two = binary_named(name, dst, src0, src1);
                    if two is Some {
                        two
                    } else {
                        shift_named(name, dst, y, z)
                    }
                },
                _ => None,
            }
        },
        (Arg::S(first, n), Arg::S(base, m), _) => {
            let load = if m == 2 && word_of(z) is Some {
                scalar_load_named(name, x, SReg(base as u32), word_of(z)->0)
            } else {
                None
            };
            if load is Some || n != 1 {
                load
            } else {
                scalar_result_named(name, SReg(first as u32), y, z)
            }
        },
        _ => None,
    }
}

/// What a line of assembly with four operands tells to do.
#[verifier::opaque]
pub open spec fn four(
    name: Seq<char>,
    x: Seq<char>,
    y: Seq<char>,
    z: Seq<char>,
    u: Seq<char>,
) -> Option<OpText> {
    if name == "v_fma_f32"@ {
        match (v_of(x, 1), operand_of(y), operand_of(z), operand_of(u)) {
            (Some(dst), Some(src0), Some(src1), Some(src2)) => Some(
                OpOf::VFmaF32 { dst, src0, src1, src2 },
            ),
            _ => None,
        }
    } else if name == "v_and_or_b32"@ {
        match (v_of(x, 1), v_of(y, 1), word_of(z), v_of(u, 1)) {
            (Some(dst), Some(src0), Some(literal), Some(src2)) => Some(
                OpOf::VAndOrB32 { dst, src0, literal, src2 },
            ),
            _ => None,
        }
    } else if name == "v_permlanex16_b32"@ {
        match (v_of(x, 1), v_of(y, 1), s_of(z, 1), s_of(u, 1)) {
            (Some(dst), Some(src), Some(SReg(0)), Some(SReg(0))) => Some(
                OpOf::VPermlanex16B32 { dst, src },
            ),
            _ => None,
        }
    } else if name == "v_add_co_u32"@ {
        match (v_of(x, 1), first_of(y), v_of(z, 1), v_of(u, 1)) {
            (Some(dst), Arg::Vcc, Some(src0), Some(src1)) => Some(
                OpOf::VAddCo { dst, src0, src1 },
            ),
            _ => None,
        }
    } else if name == "v_cndmask_b32"@ {
        match (v_of(x, 1), operand_of(y), operand_of(z), first_of(u)) {
            (Some(dst), Some(src_false), Some(src_true), Arg::Vcc) => Some(
                OpOf::VCndmaskB32 { dst, src_false, src_true },
            ),
            _ => None,
        }
    } else if name == "global_atomic_add_u32"@ {
        match (v_of(x, 1), v_of(y, 2), v_of(z, 1), first_of(u)) {
            (Some(dst), Some(addr), Some(src), Arg::Off) => if behind(u, ' ') == "glc"@ {
                Some(OpOf::GlobalAtomicAddU32Rtn { dst, addr, src })
            } else {
                None
            },
            _ => None,
        }
    } else {
        match (v_of(x, 8), v_of(y, 8), v_of(z, 8), v_of(u, 8)) {
            (Some(dst), Some(a), Some(b), Some(c)) => matrix_named(name, dst, a, b, c),
            _ => match (v_of(y, 1), s_of(z, 4), soperand_of(u)) {
                (Some(voffset), Some(srsrc), Some(o)) => {
                    let words = behind(u, ' ');
                    let offset = offset_of(behind(words, ' ')) as u16;
                    if up_to(words, ' ') != "offen"@ {
                        None
                    } else {
                        match o {
                            SOperand::SReg(s) => buffer_named(name, x, voffset, srsrc, s, offset),
                            SOperand::Literal(0) => buffer_named(
                                name,
                                x,
                                voffset,
                                srsrc,
                                SReg(SOFFSET_ZERO),
                                offset,
                            ),
                            _ => None,
                        }
                    }
                },
                _ => None,
            },
        }
    }
}

/// What a line of assembly with five operands tells to do.
#[verifier::opaque]
pub open spec fn five(
    name: Seq<char>,
    x: Seq<char>,
    y: Seq<char>,
    z: Seq<char>,
    u: Seq<char>,
    o: Seq<char>,
) -> Option<OpText> {
    if name == "v_add_co_ci_u32"@ {
        match (v_of(x, 1), first_of(y), v_of(z, 1), word_of(u), first_of(o)) {
            (Some(dst), Arg::Vcc, Some(src), Some(0), Arg::Vcc) => Some(
                OpOf::VAddCoCi { dst, src },
            ),
            _ => None,
        }
    } else {
        None
    }
}

/// What a line of assembly tells to do, by its mnemonic and its operands: an operation on
/// registers of the machine.
pub open spec fn instruction(name: Seq<char>, parts: Seq<Seq<char>>) -> Option<OpText> {
    if parts.len() == 0 {
        if name == "s_barrier"@ {
            Some(OpOf::Barrier)
        } else if name == "s_endpgm"@ {
            Some(OpOf::Endpgm)
        } else {
            None
        }
    } else if parts.len() == 1 {
        if parts[0].len() >= 2 && parts[0][0] == '.' && parts[0][1] == 'L' {
            jump_named(name, parts[0].skip(2))
        } else {
            None
        }
    } else if parts.len() == 2 {
        pair(name, parts[0], parts[1])
    } else if parts.len() == 3 {
        triple(name, parts[0], parts[1], parts[2])
    } else if parts.len() == 4 {
        four(name, parts[0], parts[1], parts[2], parts[3])
    } else if parts.len() == 5 {
        five(name, parts[0], parts[1], parts[2], parts[3], parts[4])
    } else {
        None
    }
}

// ── Placed operations ──
/// Where a vector register was placed.
pub open spec fn pv(v: VReg, ra: RegAlloc) -> VReg {
    VReg(ra.v(v) as u32)
}

/// Where a scalar register was placed.
pub open spec fn ps(s: SReg, ra: RegAlloc) -> SReg {
    SReg(ra.s(s) as u32)
}

/// A source where it was placed; a constant is its word.
pub open spec fn po(o: Operand, ra: RegAlloc) -> Operand {
    match o {
        Operand::VReg(v) => Operand::VReg(pv(v, ra)),
        Operand::InlineInt(n) => Operand::Literal(wrapped(n as int)),
        Operand::InlineFloat(bits) => Operand::Literal(float_word(bits)),
        Operand::Literal(n) => Operand::Literal(n),
    }
}

/// A scalar source where it was placed; a constant is its word.
pub open spec fn pso(o: SOperand, ra: RegAlloc) -> SOperand {
    match o {
        SOperand::SReg(s) => SOperand::SReg(ps(s, ra)),
        SOperand::InlineInt(n) => SOperand::Literal(wrapped(n as int)),
        SOperand::Literal(n) => SOperand::Literal(n),
        SOperand::Vcc => SOperand::Vcc,
    }
}

/// A scalar offset where it was placed, zero being no register.
pub open spec fn poff(s: SReg, ra: RegAlloc) -> SReg {
    if s.0 == SOFFSET_ZERO {
        s
    } else {
        ps(s, ra)
    }
}

/// The operation that one line tells to do for an operation: the same one, on the registers where
/// it was placed. Where several operations do the same, it is one of them; other operations are
/// several lines, or none.
pub open spec fn placed(op: Op, ra: RegAlloc) -> Option<OpText> {
    match op {
        OpOf::GlobalLoad { dst, addr, width, offset } => Some(
            OpOf::GlobalLoad { dst: pv(dst, ra), addr: pv(addr, ra), width, offset },
        ),
        OpOf::GlobalStore { addr, src, width, offset } => Some(
            OpOf::GlobalStore { addr: pv(addr, ra), src: pv(src, ra), width, offset },
        ),
        OpOf::BufferLoad { dst, voffset, srsrc, width, offset, soffset } => Some(
            OpOf::BufferLoad {
                dst: pv(dst, ra),
                voffset: pv(voffset, ra),
                srsrc: ps(srsrc, ra),
                width,
                offset,
                soffset: poff(soffset, ra),
            },
        ),
        OpOf::BufferStore { voffset, src, srsrc, width, offset, soffset } => Some(
            OpOf::BufferStore {
                voffset: pv(voffset, ra),
                src: pv(src, ra),
                srsrc: ps(srsrc, ra),
                width,
                offset,
                soffset: poff(soffset, ra),
            },
        ),
        OpOf::GlobalAtomicAddF32 { addr, src, offset } => Some(
            OpOf::GlobalAtomicAddF32 { addr: pv(addr, ra), src: pv(src, ra), offset },
        ),
        OpOf::GlobalAtomicAddU32Rtn { dst, addr, src } => Some(
            OpOf::GlobalAtomicAddU32Rtn {
                dst: pv(dst, ra),
                addr: pv(addr, ra),
                src: pv(src, ra),
            },
        ),
        OpOf::LdsLoad { dst, addr, width, offset } => {
            let (dst, vaddr) = (pv(dst, ra), pv(addr, ra));
            match width {
                Width::B16 => Some(OpOf::DsLoadU16 { dst, vaddr, offset }),
                Width::B32 => Some(OpOf::DsLoadB32 { dst, vaddr, offset }),
                Width::B64 => Some(OpOf::DsLoadB64 { dst, vaddr, offset }),
                Width::B128 => Some(OpOf::DsLoadB128 { dst, vaddr, offset }),
            }
        },
        OpOf::LdsStore { addr, src, width, offset } => {
            let (vaddr, src) = (pv(addr, ra), pv(src, ra));
            match width {
                Width::B16 => Some(OpOf::DsStoreB16 { vaddr, src, offset }),
                Width::B32 => Some(OpOf::DsStoreB32 { vaddr, src, offset }),
                Width::B64 => Some(OpOf::DsStoreB64 { vaddr, src, offset }),
                Width::B128 => Some(OpOf::DsStoreB128 { vaddr, src, offset }),
            }
        },
        OpOf::DsLoadB32 { dst, vaddr, offset } => Some(
            OpOf::DsLoadB32 { dst: pv(dst, ra), vaddr: pv(vaddr, ra), offset },
        ),
        OpOf::DsLoadB64 { dst, vaddr, offset } => Some(
            OpOf::DsLoadB64 { dst: pv(dst, ra), vaddr: pv(vaddr, ra), offset },
        ),
        OpOf::DsLoadB128 { dst, vaddr, offset } => Some(
            OpOf::DsLoadB128 { dst: pv(dst, ra), vaddr: pv(vaddr, ra), offset },
        ),
        OpOf::DsLoadU16 { dst, vaddr, offset } => Some(
            OpOf::DsLoadU16 { dst: pv(dst, ra), vaddr: pv(vaddr, ra), offset },
        ),
        OpOf::DsLoadU16D16 { dst, vaddr, offset } => Some(
            OpOf::DsLoadU16D16 { dst: pv(dst, ra), vaddr: pv(vaddr, ra), offset },
        ),
        OpOf::DsLoadU16D16Hi { dst, vaddr, offset } => Some(
            OpOf::DsLoadU16D16Hi { dst: pv(dst, ra), vaddr: pv(vaddr, ra), offset },
        ),
        OpOf::DsStoreB16 { vaddr, src, offset } => Some(
            OpOf::DsStoreB16 { vaddr: pv(vaddr, ra), src: pv(src, ra), offset },
        ),
        OpOf::DsStoreB32 { vaddr, src, offset } => Some(
            OpOf::DsStoreB32 { vaddr: pv(vaddr, ra), src: pv(src, ra), offset },
        ),
        OpOf::DsStoreB64 { vaddr, src, offset } => Some(
            OpOf::DsStoreB64 { vaddr: pv(vaddr, ra), src: pv(src, ra), offset },
        ),
        OpOf::DsStoreB128 { vaddr, src, offset } => Some(
            OpOf::DsStoreB128 { vaddr: pv(vaddr, ra), src: pv(src, ra), offset },
        ),
        OpOf::DsSwizzle { dst, src, offset } => Some(
            OpOf::DsSwizzle { dst: pv(dst, ra), src: pv(src, ra), offset },
        ),
        OpOf::ScalarLoad { dst, base, offset, width } => Some(
            OpOf::ScalarLoad {
                dst: ps(dst, ra),
                base: if base.0 >= KERNARG_BASE_MIN {
                    SRegPair(0)
                } else {
                    SRegPair(ra.s(SReg(base.0)) as u32)
                },
                offset,
                width,
            },
        ),
        OpOf::VAddF32 { dst, src0, src1 } => Some(
            OpOf::VAddF32 { dst: pv(dst, ra), src0: po(src0, ra), src1: po(src1, ra) },
        ),
        OpOf::VMulF32 { dst, src0, src1 } => Some(
            OpOf::VMulF32 { dst: pv(dst, ra), src0: po(src0, ra), src1: po(src1, ra) },
        ),
        OpOf::VSubF32 { dst, src0, src1 } => Some(
            OpOf::VSubF32 { dst: pv(dst, ra), src0: po(src0, ra), src1: po(src1, ra) },
        ),
        OpOf::VMaxF32 { dst, src0, src1 } => Some(
            OpOf::VMaxF32 { dst: pv(dst, ra), src0: po(src0, ra), src1: po(src1, ra) },
        ),
        OpOf::VMinF32 { dst, src0, src1 } => Some(
            OpOf::VMinF32 { dst: pv(dst, ra), src0: po(src0, ra), src1: po(src1, ra) },
        ),
        OpOf::VMinU32 { dst, src0, src1 } => Some(
            OpOf::VMinU32 { dst: pv(dst, ra), src0: po(src0, ra), src1: po(src1, ra) },
        ),
        OpOf::VAddU32 { dst, src0, src1 } => Some(
            OpOf::VAddU32 { dst: pv(dst, ra), src0: po(src0, ra), src1: po(src1, ra) },
        ),
        OpOf::VSubU32 { dst, src0, src1 } => Some(
            OpOf::VSubU32 { dst: pv(dst, ra), src0: po(src0, ra), src1: po(src1, ra) },
        ),
        OpOf::VAndB32 { dst, src0, src1 } => Some(
            OpOf::VAndB32 { dst: pv(dst, ra), src0: po(src0, ra), src1: po(src1, ra) },
        ),
        OpOf::VOrB32 { dst, src0, src1 } => Some(
            OpOf::VOrB32 { dst: pv(dst, ra), src0: po(src0, ra), src1: po(src1, ra) },
        ),
        OpOf::VXorB32 { dst, src0, src1 } => Some(
            OpOf::VXorB32 { dst: pv(dst, ra), src0: po(src0, ra), src1: po(src1, ra) },
        ),
        OpOf::VFmaF32 { dst, src0, src1, src2 } => Some(
            OpOf::VFmaF32 {
                dst: pv(dst, ra),
                src0: po(src0, ra),
                src1: po(src1, ra),
                src2: po(src2, ra),
            },
        ),
        OpOf::VMov { dst, src } => Some(OpOf::VMov { dst: pv(dst, ra), src: po(src, ra) }),
        OpOf::VMovFromSgpr { dst, src } => Some(
            OpOf::VMovFromSgpr { dst: pv(dst, ra), src: ps(src, ra) },
        ),
        OpOf::VMulLoU32 { dst, src0, src1 } => Some(
            OpOf::VMulLoU32 { dst: pv(dst, ra), src0: pv(src0, ra), src1: pv(src1, ra) },
        ),
        OpOf::VLshlrevB32 { dst, shift, src } => Some(
            OpOf::VLshlrevB32 { dst: pv(dst, ra), shift, src: pv(src, ra) },
        ),
        OpOf::VLshrrevB32 { dst, shift, src } => Some(
            OpOf::VLshrrevB32 { dst: pv(dst, ra), shift, src: pv(src, ra) },
        ),
        OpOf::VLshrrevB32Vgpr { dst, shift, src } => Some(
            OpOf::VLshrrevB32Vgpr { dst: pv(dst, ra), shift: pv(shift, ra), src: pv(src, ra) },
        ),
        OpOf::VAndOrB32 { dst, src0, literal, src2 } => Some(
            OpOf::VAndOrB32 { dst: pv(dst, ra), src0: pv(src0, ra), literal, src2: pv(src2, ra) },
        ),
        OpOf::VReadfirstlane { dst, src } => Some(
            OpOf::VReadfirstlane { dst: ps(dst, ra), src: pv(src, ra) },
        ),
        OpOf::VCvtF32U32 { dst, src } => Some(
            OpOf::VCvtF32U32 { dst: pv(dst, ra), src: pv(src, ra) },
        ),
        OpOf::VCvtU32F32 { dst, src } => Some(
            OpOf::VCvtU32F32 { dst: pv(dst, ra), src: pv(src, ra) },
        ),
        OpOf::VRsqF32 { dst, src } => Some(OpOf::VRsqF32 { dst: pv(dst, ra), src: pv(src, ra) }),
        OpOf::VExpF32 { dst, src } => Some(OpOf::VExpF32 { dst: pv(dst, ra), src: pv(src, ra) }),
        OpOf::VSinF32 { dst, src } => Some(OpOf::VSinF32 { dst: pv(dst, ra), src: pv(src, ra) }),
        OpOf::VCosF32 { dst, src } => Some(OpOf::VCosF32 { dst: pv(dst, ra), src: pv(src, ra) }),
        OpOf::VRcpF32 { dst, src } => Some(OpOf::VRcpF32 { dst: pv(dst, ra), src: pv(src, ra) }),
        OpOf::VSqrtF32 { dst, src } => Some(OpOf::VSqrtF32 { dst: pv(dst, ra), src: pv(src, ra) }),
        OpOf::VLog2F32 { dst, src } => Some(OpOf::VLog2F32 { dst: pv(dst, ra), src: pv(src, ra) }),
        OpOf::VPermlanex16B32 { dst, src } => Some(
            OpOf::VPermlanex16B32 { dst: pv(dst, ra), src: pv(src, ra) },
        ),
        OpOf::VAddCo { dst, src0, src1 } | OpOf::VAddCOU32 { dst, src0, src1 } => Some(
            OpOf::VAddCo { dst: pv(dst, ra), src0: pv(src0, ra), src1: pv(src1, ra) },
        ),
        OpOf::VAddCoCi { dst, src } | OpOf::VAddCCU32 { dst, src } => Some(
            OpOf::VAddCoCi { dst: pv(dst, ra), src: pv(src, ra) },
        ),
        OpOf::VCmpLtU32 { src0, src1 } => Some(
            OpOf::VCmpLtU32 { src0: po(src0, ra), src1: po(src1, ra) },
        ),
        OpOf::VCmpGeU32 { src0, src1 } => Some(
            OpOf::VCmpGeU32 { src0: po(src0, ra), src1: po(src1, ra) },
        ),
        OpOf::VCmpGtU32 { src0, src1 } => Some(
            OpOf::VCmpGtU32 { src0: po(src0, ra), src1: po(src1, ra) },
        ),
        OpOf::VCmpEqU32 { src0, src1 } => Some(
            OpOf::VCmpEqU32 { src0: po(src0, ra), src1: po(src1, ra) },
        ),
        OpOf::VCmpEqF32 { src0, src1 } => Some(
            OpOf::VCmpEqF32 { src0: po(src0, ra), src1: po(src1, ra) },
        ),
        OpOf::VCmpGtF32 { src0, src1 } => Some(
            OpOf::VCmpGtF32 { src0: po(src0, ra), src1: po(src1, ra) },
        ),
        OpOf::VCmpLtF32 { src0, src1 } => Some(
            OpOf::VCmpLtF32 { src0: po(src0, ra), src1: po(src1, ra) },
        ),
        OpOf::VCmpGeF32 { src0, src1 } => Some(
            OpOf::VCmpGeF32 { src0: po(src0, ra), src1: po(src1, ra) },
        ),
        OpOf::VCmpGtF32Imm0 { src } => Some(
            OpOf::VCmpGtF32 { src0: Operand::VReg(pv(src, ra)), src1: Operand::Literal(0) },
        ),
        OpOf::VCmpGtU32Imm { src, imm } => Some(
            OpOf::VCmpGtU32 { src0: Operand::VReg(pv(src, ra)), src1: Operand::Literal(imm) },
        ),
        OpOf::VCmpEqU32Imm { src, imm } => Some(
            OpOf::VCmpEqU32 { src0: Operand::VReg(pv(src, ra)), src1: Operand::Literal(imm) },
        ),
        OpOf::VCmpGeI32 { src0, src1 } => Some(
            OpOf::VCmpGeI32 { src0: pv(src0, ra), src1: pv(src1, ra) },
        ),
        OpOf::VCndmaskB32 { dst, src_false, src_true } => Some(
            OpOf::VCndmaskB32 {
                dst: pv(dst, ra),
                src_false: po(src_false, ra),
                src_true: po(src_true, ra),
            },
        ),
        OpOf::SAddU32 { dst, src0, src1 } => Some(
            OpOf::SAddU32 { dst: ps(dst, ra), src0: ps(src0, ra), src1: pso(src1, ra) },
        ),
        OpOf::SAddcU32 { dst, src0, src1 } => Some(
            OpOf::SAddcU32 { dst: ps(dst, ra), src0: ps(src0, ra), src1: pso(src1, ra) },
        ),
        OpOf::SSubU32 { dst, src0, src1 } => Some(
            OpOf::SSubU32 { dst: ps(dst, ra), src0: ps(src0, ra), src1: pso(src1, ra) },
        ),
        OpOf::SAndB32 { dst, src0, src1 } => Some(
            OpOf::SAndB32 { dst: ps(dst, ra), src0: ps(src0, ra), src1: pso(src1, ra) },
        ),
        OpOf::SMulI32 { dst, src0, src1 } => Some(
            OpOf::SMulI32 { dst: ps(dst, ra), src0: ps(src0, ra), src1: ps(src1, ra) },
        ),
        OpOf::SLshlB32 { dst, src, shift } => Some(
            OpOf::SLshlB32 { dst: ps(dst, ra), src: ps(src, ra), shift },
        ),
        OpOf::SLshrB32 { dst, src, shift } => Some(
            OpOf::SLshrB32 { dst: ps(dst, ra), src: ps(src, ra), shift },
        ),
        OpOf::SMov { dst, src } => Some(OpOf::SMov { dst: ps(dst, ra), src: pso(src, ra) }),
        OpOf::SCmpLtU32 { src0, src1 } => Some(
            OpOf::SCmpLtU32 { src0: ps(src0, ra), src1: ps(src1, ra) },
        ),
        OpOf::SCmpGeU32 { src0, src1 } => Some(
            OpOf::SCmpGeU32 { src0: ps(src0, ra), src1: ps(src1, ra) },
        ),
        OpOf::SCmpEqU32 { src0, src1 } => Some(
            OpOf::SCmpEqU32 { src0: ps(src0, ra), src1: pso(src1, ra) },
        ),
        OpOf::ClearVcc => Some(OpOf::ClearVcc),
        OpOf::SMovToVcc { src } => Some(OpOf::SMovToVcc { src: ps(src, ra) }),
        OpOf::Wmma { dst, a, b, c, format } => Some(
            OpOf::Wmma {
                dst: pv(dst, ra),
                a: pv(a, ra),
                b: pv(b, ra),
                c: pv(c, ra),
                format,
            },
        ),
        OpOf::SaveExec { dst } => Some(OpOf::SaveExec { dst: ps(dst, ra) }),
        OpOf::RestoreExec { src } => Some(OpOf::RestoreExec { src: ps(src, ra) }),
        OpOf::XorExec { saved } => Some(OpOf::XorExec { saved: ps(saved, ra) }),
        OpOf::Branch(target) => Some(OpOf::Branch(target@)),
        OpOf::BranchScc0(target) => Some(OpOf::BranchScc0(target@)),
        OpOf::BranchScc1(target) => Some(OpOf::BranchScc1(target@)),
        OpOf::BranchVccz(target) => Some(OpOf::BranchVccz(target@)),
        OpOf::Barrier | OpOf::SBarrier => Some(OpOf::Barrier),
        OpOf::Endpgm => Some(OpOf::Endpgm),
        OpOf::CaptureTgid { dst, axis } => Some(
            OpOf::SMov { dst: ps(dst, ra), src: SOperand::SReg(SReg((2 + axis) as u32)) },
        ),
        _ => None,
    }
}

// ── Reading operations back ──
/// What the parts of lines are read as.
proof fn lemma_parts(ra: RegAlloc)
    ensures
        forall|v: VReg| first_of(#[trigger] vt(v, ra)) == Arg::V(ra.v(v) as nat, 1) && solid(
            vt(v, ra),
        ) && arg_of(vt(v, ra)) == first_of(vt(v, ra)),
        forall|s: SReg| first_of(#[trigger] st(s, ra)) == Arg::S(ra.s(s) as nat, 1) && solid(
            st(s, ra),
        ) && arg_of(st(s, ra)) == first_of(st(s, ra)),
        forall|v: VReg, n: nat|
            n >= 1 ==> first_of(#[trigger] vrt(v, n, ra)) == Arg::V(ra.v(v) as nat, n) && solid(
                vrt(v, n, ra),
            ) && arg_of(vrt(v, n, ra)) == first_of(vrt(v, n, ra)),
        forall|s: SReg, n: nat|
            n >= 1 ==> first_of(#[trigger] srt(s, n, ra)) == Arg::S(ra.s(s) as nat, n),
        forall|o: Operand| operand_of(#[trigger] ot(o, ra)) == Some(po(o, ra)),
        forall|o: Operand| !(first_of(#[trigger] ot(o, ra)) is Off),
        forall|o: SOperand| soperand_of(#[trigger] sot(o, ra)) == Some(pso(o, ra)),
        forall|o: SOperand| !(first_of(#[trigger] sot(o, ra)) is Off),
        forall|n: nat| first_of(#[trigger] dec(n)) == Arg::Word(wrapped(n as int)),
        forall|n: u32| first_of(#[trigger] hex_text(n as nat)) == Arg::Word(n),
        first_of("vcc_lo"@) is Vcc,
        first_of("exec_lo"@) is Exec,
        first_of("off"@) is Off,
        first_of("0"@) == Arg::Word(0),
{
    let e = Seq::<char>::empty();
    lemma_literals();
    lemma_special();
    lemma_first("vcc_lo"@, e);
    lemma_first("exec_lo"@, e);
    lemma_first("off"@, e);
    lemma_first("0"@, e);
    assert forall|v: VReg| first_of(#[trigger] vt(v, ra)) == Arg::V(ra.v(v) as nat, 1) && solid(
        vt(v, ra),
    ) && arg_of(vt(v, ra)) == first_of(vt(v, ra)) by {
        lemma_registers('v', ra.v(v) as nat, 1);
        lemma_first(vt(v, ra), e);
    }
    assert forall|s: SReg| first_of(#[trigger] st(s, ra)) == Arg::S(ra.s(s) as nat, 1) && solid(
        st(s, ra),
    ) && arg_of(st(s, ra)) == first_of(st(s, ra)) by {
        lemma_registers('s', ra.s(s) as nat, 1);
        lemma_first(st(s, ra), e);
    }
    assert forall|v: VReg, n: nat| n >= 1 implies first_of(#[trigger] vrt(v, n, ra)) == Arg::V(
        ra.v(v) as nat,
        n,
    ) && solid(vrt(v, n, ra)) && arg_of(vrt(v, n, ra)) == first_of(vrt(v, n, ra)) by {
        lemma_registers('v', ra.v(v) as nat, n);
        lemma_first(vrt(v, n, ra), e);
    }
    assert forall|s: SReg, n: nat| n >= 1 implies first_of(#[trigger] srt(s, n, ra)) == Arg::S(
        ra.s(s) as nat,
        n,
    ) by {
        lemma_registers('s', ra.s(s) as nat, n);
        lemma_first(srt(s, n, ra), e);
    }
    assert forall|n: nat| first_of(#[trigger] dec(n)) == Arg::Word(wrapped(n as int)) by {
        lemma_word(n as int);
        lemma_first(dec(n), e);
    }
    assert forall|n: u32| first_of(#[trigger] hex_text(n as nat)) == Arg::Word(n) by {
        lemma_hex_word(n, 0);
        lemma_first(hex_text(n as nat), e);
    }
    assert forall|o: Operand| operand_of(#[trigger] ot(o, ra)) == Some(po(o, ra)) && !(first_of(
        ot(o, ra),
    ) is Off) by {
        lemma_operand(o, ra);
    }
    assert forall|o: SOperand| soperand_of(#[trigger] sot(o, ra)) == Some(pso(o, ra)) && !(
    first_of(sot(o, ra)) is Off) by {
        lemma_soperand(o, ra);
    }
}

proof fn lemma_operand(o: Operand, ra: RegAlloc)
    ensures
        operand_of(ot(o, ra)) == Some(po(o, ra)),
        !(first_of(ot(o, ra)) is Off),
{
    let e = Seq::<char>::empty();
    lemma_literals();
    match o {
        Operand::VReg(v) => {
            lemma_registers('v', ra.v(v) as nat, 1);
            lemma_first(vt(v, ra), e);
        },
        Operand::InlineInt(n) => {
            lemma_word(n as int);
            lemma_first(int_text(n as int), e);
        },
        Operand::InlineFloat(bits) => {
            lemma_float(bits);
            lemma_first(float_text(bits), e);
        },
        Operand::Literal(n) => {
            lemma_hex_word(n, 0);
            lemma_first(hex_text(n as nat), e);
        },
    }
}

proof fn lemma_soperand(o: SOperand, ra: RegAlloc)
    ensures
        soperand_of(sot(o, ra)) == Some(pso(o, ra)),
        !(first_of(sot(o, ra)) is Off),
{
    let e = Seq::<char>::empty();
    lemma_literals();
    lemma_special();
    match o {
        SOperand::SReg(s) => {
            lemma_registers('s', ra.s(s) as nat, 1);
            lemma_first(st(s, ra), e);
        },
        SOperand::InlineInt(n) => {
            lemma_word(n as int);
            lemma_first(int_text(n as int), e);
        },
        SOperand::Literal(n) => {
            lemma_hex_word(n, 0);
            lemma_first(hex_text(n as nat), e);
        },
        SOperand::Vcc => {
            lemma_first("vcc_lo"@, e);
        },
    }
}

proof fn lemma_v(v: VReg, ra: RegAlloc)
    ensures
        v_of(vt(v, ra), 1) == Some(pv(v, ra)),
        operand_of(vt(v, ra)) == Some(Operand::VReg(pv(v, ra))),
        word_of(vt(v, ra)) is None,
        solid(vt(v, ra)),
        arg_of(vt(v, ra)) == Arg::V(ra.v(v) as nat, 1),
{
    lemma_parts(ra);
}

proof fn lemma_vr(v: VReg, n: nat, ra: RegAlloc)
    requires
        n >= 1,
    ensures
        v_of(vrt(v, n, ra), n) == Some(pv(v, ra)),
        solid(vrt(v, n, ra)),
        arg_of(vrt(v, n, ra)) == Arg::V(ra.v(v) as nat, n),
{
    lemma_parts(ra);
}

proof fn lemma_s(s: SReg, ra: RegAlloc)
    ensures
        s_of(st(s, ra), 1) == Some(ps(s, ra)),
        soperand_of(st(s, ra)) == Some(SOperand::SReg(ps(s, ra))),
        operand_of(st(s, ra)) is None,
{
    lemma_parts(ra);
}

proof fn lemma_sr(s: SReg, n: nat, ra: RegAlloc)
    requires
        n >= 1,
    ensures
        s_of(srt(s, n, ra), n) == Some(ps(s, ra)),
{
    lemma_parts(ra);
}

proof fn lemma_n(n: u32, ra: RegAlloc)
    ensures
        word_of(dec(n as nat)) == Some(n),
        operand_of(dec(n as nat)) == Some(Operand::Literal(n)),
        word_of(hex_text(n as nat)) == Some(n),
{
    lemma_parts(ra);
}

proof fn lemma_fixed(ra: RegAlloc)
    ensures
        first_of("vcc_lo"@) is Vcc,
        first_of("exec_lo"@) is Exec,
        first_of("off"@) is Off,
        first_of("0"@) == Arg::Word(0),
        word_of("0"@) == Some(0u32),
        operand_of("0"@) == Some(Operand::Literal(0)),
        soperand_of("0"@) == Some(SOperand::Literal(0)),
{
    lemma_parts(ra);
}

/// What tells names apart.
proof fn lemma_names_a()
    ensures
        "v_cvt_f32_u32"@.len() == 13 && "v_cvt_f32_u32"@[0] == 'v'
            && "v_cvt_f32_u32"@[2] == 'c' && "v_cvt_f32_u32"@[3] == 'v'
            && "v_cvt_f32_u32"@[6] == 'f' && "v_cvt_f32_u32"@[10] == 'u',
        "v_cvt_u32_f32"@.len() == 13 && "v_cvt_u32_f32"@[0] == 'v'
            && "v_cvt_u32_f32"@[2] == 'c' && "v_cvt_u32_f32"@[3] == 'v'
            && "v_cvt_u32_f32"@[6] == 'u' && "v_cvt_u32_f32"@[10] == 'f',
        "v_rsq_f32"@.len() == 9 && "v_rsq_f32"@[0] == 'v' && "v_rsq_f32"@[2] == 'r'
            && "v_rsq_f32"@[3] == 's' && "v_rsq_f32"@[6] == 'f',
        "v_exp_f32"@.len() == 9 && "v_exp_f32"@[0] == 'v' && "v_exp_f32"@[2] == 'e'
            && "v_exp_f32"@[3] == 'x' && "v_exp_f32"@[6] == 'f',
        "v_sin_f32"@.len() == 9 && "v_sin_f32"@[0] == 'v' && "v_sin_f32"@[2] == 's'
            && "v_sin_f32"@[3] == 'i' && "v_sin_f32"@[6] == 'f',
        "v_cos_f32"@.len() == 9 && "v_cos_f32"@[0] == 'v' && "v_cos_f32"@[2] == 'c'
            && "v_cos_f32"@[3] == 'o' && "v_cos_f32"@[6] == 'f',
        "v_rcp_f32"@.len() == 9 && "v_rcp_f32"@[0] == 'v' && "v_rcp_f32"@[2] == 'r'
            && "v_rcp_f32"@[3] == 'c' && "v_rcp_f32"@[6] == 'f',
        "v_sqrt_f32"@.len() == 10 && "v_sqrt_f32"@[0] == 'v' && "v_sqrt_f32"@[2] == 's'
            && "v_sqrt_f32"@[3] == 'q' && "v_sqrt_f32"@[6] == '_',
        "v_log_f32"@.len() == 9 && "v_log_f32"@[0] == 'v' && "v_log_f32"@[2] == 'l'
            && "v_log_f32"@[3] == 'o' && "v_log_f32"@[6] == 'f',
        "ds_load_b32"@.len() == 11 && "ds_load_b32"@[0] == 'd' && "ds_load_b32"@[2] == '_'
            && "ds_load_b32"@[3] == 'l' && "ds_load_b32"@[6] == 'd' && "ds_load_b32"@[10] == '2',
        "ds_load_b64"@.len() == 11 && "ds_load_b64"@[0] == 'd' && "ds_load_b64"@[2] == '_'
            && "ds_load_b64"@[3] == 'l' && "ds_load_b64"@[6] == 'd' && "ds_load_b64"@[10] == '4',
        "ds_load_b128"@.len() == 12 && "ds_load_b128"@[0] == 'd'
            && "ds_load_b128"@[2] == '_' && "ds_load_b128"@[3] == 'l'
            && "ds_load_b128"@[6] == 'd' && "ds_load_b128"@[10] == '2',
        "ds_load_u16"@.len() == 11 && "ds_load_u16"@[0] == 'd' && "ds_load_u16"@[2] == '_'
            && "ds_load_u16"@[3] == 'l' && "ds_load_u16"@[6] == 'd' && "ds_load_u16"@[10] == '6',
        "ds_load_u16_d16"@.len() == 15 && "ds_load_u16_d16"@[0] == 'd'
            && "ds_load_u16_d16"@[2] == '_' && "ds_load_u16_d16"@[3] == 'l'
            && "ds_load_u16_d16"@[6] == 'd' && "ds_load_u16_d16"@[10] == '6',
        "ds_load_u16_d16_hi"@.len() == 18 && "ds_load_u16_d16_hi"@[0] == 'd'
            && "ds_load_u16_d16_hi"@[2] == '_' && "ds_load_u16_d16_hi"@[3] == 'l'
            && "ds_load_u16_d16_hi"@[6] == 'd' && "ds_load_u16_d16_hi"@[10] == '6',
        "ds_store_b16"@.len() == 12 && "ds_store_b16"@[0] == 'd'
            && "ds_store_b16"@[2] == '_' && "ds_store_b16"@[3] == 's'
            && "ds_store_b16"@[6] == 'r' && "ds_store_b16"@[10] == '1',
        "ds_store_b32"@.len() == 12 && "ds_store_b32"@[0] == 'd'
            && "ds_store_b32"@[2] == '_' && "ds_store_b32"@[3] == 's'
            && "ds_store_b32"@[6] == 'r' && "ds_store_b32"@[10] == '3',
        "ds_store_b64"@.len() == 12 && "ds_store_b64"@[0] == 'd'
            && "ds_store_b64"@[2] == '_' && "ds_store_b64"@[3] == 's'
            && "ds_store_b64"@[6] == 'r' && "ds_store_b64"@[10] == '6',
        "ds_store_b128"@.len() == 13 && "ds_store_b128"@[0] == 'd'
            && "ds_store_b128"@[2] == '_' && "ds_store_b128"@[3] == 's'
            && "ds_store_b128"@[6] == 'r' && "ds_store_b128"@[10] == '1',
        "ds_swizzle_b32"@.len() == 14 && "ds_swizzle_b32"@[0] == 'd'
            && "ds_swizzle_b32"@[2] == '_' && "ds_swizzle_b32"@[3] == 's'
            && "ds_swizzle_b32"@[6] == 'z' && "ds_swizzle_b32"@[10] == '_',
        "s_mov_b32"@.len() == 9 && "s_mov_b32"@[0] == 's' && "s_mov_b32"@[2] == 'm'
            && "s_mov_b32"@[3] == 'o' && "s_mov_b32"@[6] == 'b',
        "s_cmp_lt_u32"@.len() == 12 && "s_cmp_lt_u32"@[0] == 's'
            && "s_cmp_lt_u32"@[2] == 'c' && "s_cmp_lt_u32"@[3] == 'm'
            && "s_cmp_lt_u32"@[6] == 'l' && "s_cmp_lt_u32"@[10] == '3',
        "s_cmp_ge_u32"@.len() == 12 && "s_cmp_ge_u32"@[0] == 's'
            && "s_cmp_ge_u32"@[2] == 'c' && "s_cmp_ge_u32"@[3] == 'm'
            && "s_cmp_ge_u32"@[6] == 'g' && "s_cmp_ge_u32"@[10] == '3',
        "s_cmp_eq_u32"@.len() == 12 && "s_cmp_eq_u32"@[0] == 's'
            && "s_cmp_eq_u32"@[2] == 'c' && "s_cmp_eq_u32"@[3] == 'm'
            && "s_cmp_eq_u32"@[6] == 'e' && "s_cmp_eq_u32"@[10] == '3',
        "s_and_saveexec_b32"@.len() == 18 && "s_and_saveexec_b32"@[0] == 's'
            && "s_and_saveexec_b32"@[2] == 'a' && "s_and_saveexec_b32"@[3] == 'n'
            && "s_and_saveexec_b32"@[6] == 's' && "s_and_saveexec_b32"@[10] == 'e',
        "v_readfirstlane_b32"@.len() == 19 && "v_readfirstlane_b32"@[0] == 'v'
            && "v_readfirstlane_b32"@[2] == 'r' && "v_readfirstlane_b32"@[3] == 'e'
            && "v_readfirstlane_b32"@[6] == 'f' && "v_readfirstlane_b32"@[10] == 't',
        "v_mov_b32"@.len() == 9 && "v_mov_b32"@[0] == 'v' && "v_mov_b32"@[2] == 'm'
            && "v_mov_b32"@[3] == 'o' && "v_mov_b32"@[6] == 'b',
{
    reveal_strlit("v_cvt_f32_u32");
    reveal_strlit("v_cvt_u32_f32");
    reveal_strlit("v_rsq_f32");
    reveal_strlit("v_exp_f32");
    reveal_strlit("v_sin_f32");
    reveal_strlit("v_cos_f32");
    reveal_strlit("v_rcp_f32");
    reveal_strlit("v_sqrt_f32");
    reveal_strlit("v_log_f32");
    reveal_strlit("ds_load_b32");
    reveal_strlit("ds_load_b64");
    reveal_strlit("ds_load_b128");
    reveal_strlit("ds_load_u16");
    reveal_strlit("ds_load_u16_d16");
    reveal_strlit("ds_load_u16_d16_hi");
    reveal_strlit("ds_store_b16");
    reveal_strlit("ds_store_b32");
    reveal_strlit("ds_store_b64");
    reveal_strlit("ds_store_b128");
    reveal_strlit("ds_swizzle_b32");
    reveal_strlit("s_mov_b32");
    reveal_strlit("s_cmp_lt_u32");
    reveal_strlit("s_cmp_ge_u32");
    reveal_strlit("s_cmp_eq_u32");
    reveal_strlit("s_and_saveexec_b32");
    reveal_strlit("v_readfirstlane_b32");
    reveal_strlit("v_mov_b32");
}

/// Lines of moves, scalar comparisons and the execution mask.
#[verifier::spinoff_prover]
#[verifier::rlimit(60)]
proof fn lemma_scalar_texts(x: Seq<char>, y: Seq<char>)
    ensures
        s_of(x, 1) is Some && soperand_of(y) is Some ==> pair("s_mov_b32"@, x, y)
            == Some::<OpText>(OpOf::SMov { dst: s_of(x, 1)->0, src: soperand_of(y)->0 }),
        first_of(x) is Vcc && first_of(y) == Arg::Word(0) ==> pair("s_mov_b32"@, x, y)
            == Some::<OpText>(OpOf::ClearVcc),
        first_of(x) is Vcc && s_of(y, 1) is Some ==> pair("s_mov_b32"@, x, y)
            == Some::<OpText>(OpOf::SMovToVcc { src: s_of(y, 1)->0 }),
        first_of(x) is Exec && s_of(y, 1) is Some ==> pair("s_mov_b32"@, x, y)
            == Some::<OpText>(OpOf::RestoreExec { src: s_of(y, 1)->0 }),
        s_of(x, 1) is Some && s_of(y, 1) is Some ==> pair("s_cmp_lt_u32"@, x, y)
            == Some::<OpText>(OpOf::SCmpLtU32 { src0: s_of(x, 1)->0, src1: s_of(y, 1)->0 }),
        s_of(x, 1) is Some && s_of(y, 1) is Some ==> pair("s_cmp_ge_u32"@, x, y)
            == Some::<OpText>(OpOf::SCmpGeU32 { src0: s_of(x, 1)->0, src1: s_of(y, 1)->0 }),
        s_of(x, 1) is Some && soperand_of(y) is Some ==> pair("s_cmp_eq_u32"@, x, y)
            == Some::<OpText>(OpOf::SCmpEqU32 { src0: s_of(x, 1)->0, src1: soperand_of(y)->0 }),
        s_of(x, 1) is Some && first_of(y) is Vcc ==> pair("s_and_saveexec_b32"@, x, y)
            == Some::<OpText>(OpOf::SaveExec { dst: s_of(x, 1)->0 }),
        s_of(x, 1) is Some && v_of(y, 1) is Some ==> pair("v_readfirstlane_b32"@, x, y)
            == Some::<OpText>(OpOf::VReadfirstlane { dst: s_of(x, 1)->0, src: v_of(y, 1)->0 }),
        v_of(x, 1) is Some && operand_of(y) is Some ==> pair("v_mov_b32"@, x, y)
            == Some::<OpText>(OpOf::VMov { dst: v_of(x, 1)->0, src: operand_of(y)->0 }),
        v_of(x, 1) is Some && s_of(y, 1) is Some ==> pair("v_mov_b32"@, x, y)
            == Some::<OpText>(OpOf::VMovFromSgpr { dst: v_of(x, 1)->0, src: s_of(y, 1)->0 }),
{
    reveal(pair);
    lemma_names_a();
}

/// Lines of operations on the local data share.
#[verifier::spinoff_prover]
#[verifier::rlimit(60)]
proof fn lemma_share_texts(x: Seq<char>, y: Seq<char>)
    ensures
        v_of(x, 1) is Some && v_of(y, 1) is Some ==> pair("ds_load_b32"@, x, y)
            == Some::<OpText>(OpOf::DsLoadB32 {
                dst: v_of(x, 1)->0,
                vaddr: v_of(y, 1)->0,
                offset: offset_of(behind(y, ' ')) as u16,
            }),
        v_of(x, 2) is Some && v_of(y, 1) is Some ==> pair("ds_load_b64"@, x, y)
            == Some::<OpText>(OpOf::DsLoadB64 {
                dst: v_of(x, 2)->0,
                vaddr: v_of(y, 1)->0,
                offset: offset_of(behind(y, ' ')) as u16,
            }),
        v_of(x, 4) is Some && v_of(y, 1) is Some ==> pair("ds_load_b128"@, x, y)
            == Some::<OpText>(OpOf::DsLoadB128 {
                dst: v_of(x, 4)->0,
                vaddr: v_of(y, 1)->0,
                offset: offset_of(behind(y, ' ')) as u16,
            }),
        v_of(x, 1) is Some && v_of(y, 1) is Some ==> pair("ds_load_u16"@, x, y)
            == Some::<OpText>(OpOf::DsLoadU16 {
                dst: v_of(x, 1)->0,
                vaddr: v_of(y, 1)->0,
                offset: offset_of(behind(y, ' ')) as u16,
            }),
        v_of(x, 1) is Some && v_of(y, 1) is Some ==> pair("ds_load_u16_d16"@, x, y)
            == Some::<OpText>(OpOf::DsLoadU16D16 {
                dst: v_of(x, 1)->0,
                vaddr: v_of(y, 1)->0,
                offset: offset_of(behind(y, ' ')) as u16,
            }),
        v_of(x, 1) is Some && v_of(y, 1) is Some ==> pair("ds_load_u16_d16_hi"@, x, y)
            == Some::<OpText>(OpOf::DsLoadU16D16Hi {
                dst: v_of(x, 1)->0,
                vaddr: v_of(y, 1)->0,
                offset: offset_of(behind(y, ' ')) as u16,
            }),
        v_of(x, 1) is Some && v_of(y, 1) is Some ==> pair("ds_store_b16"@, x, y)
            == Some::<OpText>(OpOf::DsStoreB16 {
                vaddr: v_of(x, 1)->0,
                src: v_of(y, 1)->0,
                offset: offset_of(behind(y, ' ')) as u16,
            }),
        v_of(x, 1) is Some && v_of(y, 1) is Some ==> pair("ds_store_b32"@, x, y)
            == Some::<OpText>(OpOf::DsStoreB32 {
                vaddr: v_of(x, 1)->0,
                src: v_of(y, 1)->0,
                offset: offset_of(behind(y, ' ')) as u16,
            }),
        v_of(x, 1) is Some && v_of(y, 2) is Some ==> pair("ds_store_b64"@, x, y)
            == Some::<OpText>(OpOf::DsStoreB64 {
                vaddr: v_of(x, 1)->0,
                src: v_of(y, 2)->0,
                offset: offset_of(behind(y, ' ')) as u16,
            }),
        v_of(x, 1) is Some && v_of(y, 4) is Some ==> pair("ds_store_b128"@, x, y)
            == Some::<OpText>(OpOf::DsStoreB128 {
                vaddr: v_of(x, 1)->0,
                src: v_of(y, 4)->0,
                offset: offset_of(behind(y, ' ')) as u16,
            }),
        v_of(x, 1) is Some && v_of(y, 1) is Some ==> pair("ds_swizzle_b32"@, x, y)
            == Some::<OpText>(OpOf::DsSwizzle {
                dst: v_of(x, 1)->0,
                src: v_of(y, 1)->0,
                offset: offset_of(behind(y, ' ')) as u16,
            }),
{
    reveal(pair);
    lemma_names_a();
}

/// What tells names apart.
proof fn lemma_names_b()
    ensures
        "v_add_f32"@.len() == 9 && "v_add_f32"@[4] == 'd' && "v_add_f32"@[5] == '_'
            && "v_add_f32"@[6] == 'f',
        "v_mul_f32"@.len() == 9 && "v_mul_f32"@[4] == 'l' && "v_mul_f32"@[5] == '_'
            && "v_mul_f32"@[6] == 'f',
        "v_sub_f32"@.len() == 9 && "v_sub_f32"@[4] == 'b' && "v_sub_f32"@[5] == '_'
            && "v_sub_f32"@[6] == 'f',
        "v_max_f32"@.len() == 9 && "v_max_f32"@[4] == 'x' && "v_max_f32"@[5] == '_'
            && "v_max_f32"@[6] == 'f',
        "v_min_f32"@.len() == 9 && "v_min_f32"@[4] == 'n' && "v_min_f32"@[5] == '_'
            && "v_min_f32"@[6] == 'f',
        "v_min_u32"@.len() == 9 && "v_min_u32"@[4] == 'n' && "v_min_u32"@[5] == '_'
            && "v_min_u32"@[6] == 'u',
        "v_add_nc_u32"@.len() == 12 && "v_add_nc_u32"@[4] == 'd'
            && "v_add_nc_u32"@[5] == '_' && "v_add_nc_u32"@[6] == 'n',
        "v_sub_u32"@.len() == 9 && "v_sub_u32"@[4] == 'b' && "v_sub_u32"@[5] == '_'
            && "v_sub_u32"@[6] == 'u',
        "v_and_b32"@.len() == 9 && "v_and_b32"@[4] == 'd' && "v_and_b32"@[5] == '_'
            && "v_and_b32"@[6] == 'b',
        "v_or_b32"@.len() == 8 && "v_or_b32"@[4] == '_' && "v_or_b32"@[5] == 'b'
            && "v_or_b32"@[6] == '3',
        "v_xor_b32"@.len() == 9 && "v_xor_b32"@[4] == 'r' && "v_xor_b32"@[5] == '_'
            && "v_xor_b32"@[6] == 'b',
        "v_mul_lo_u32"@.len() == 12 && "v_mul_lo_u32"@[4] == 'l'
            && "v_mul_lo_u32"@[5] == '_' && "v_mul_lo_u32"@[6] == 'l',
        "v_lshlrev_b32"@.len() == 13 && "v_lshlrev_b32"@[4] == 'h'
            && "v_lshlrev_b32"@[5] == 'l' && "v_lshlrev_b32"@[6] == 'r',
        "v_lshrrev_b32"@.len() == 13 && "v_lshrrev_b32"@[4] == 'h'
            && "v_lshrrev_b32"@[5] == 'r' && "v_lshrrev_b32"@[6] == 'r',
{
    reveal_strlit("v_add_f32");
    reveal_strlit("v_mul_f32");
    reveal_strlit("v_sub_f32");
    reveal_strlit("v_max_f32");
    reveal_strlit("v_min_f32");
    reveal_strlit("v_min_u32");
    reveal_strlit("v_add_nc_u32");
    reveal_strlit("v_sub_u32");
    reveal_strlit("v_and_b32");
    reveal_strlit("v_or_b32");
    reveal_strlit("v_xor_b32");
    reveal_strlit("v_mul_lo_u32");
    reveal_strlit("v_lshlrev_b32");
    reveal_strlit("v_lshrrev_b32");
}

/// Lines of operations of two sources.
#[verifier::spinoff_prover]
#[verifier::rlimit(60)]
proof fn lemma_binary_texts(x: Seq<char>, y: Seq<char>, z: Seq<char>)
    ensures
        v_of(x, 1) is Some && operand_of(y) is Some && operand_of(z) is Some
            ==> triple("v_add_f32"@, x, y, z)
            == Some::<OpText>(OpOf::VAddF32 {
                dst: v_of(x, 1)->0,
                src0: operand_of(y)->0,
                src1: operand_of(z)->0,
            }),
        v_of(x, 1) is Some && operand_of(y) is Some && operand_of(z) is Some
            ==> triple("v_mul_f32"@, x, y, z)
            == Some::<OpText>(OpOf::VMulF32 {
                dst: v_of(x, 1)->0,
                src0: operand_of(y)->0,
                src1: operand_of(z)->0,
            }),
        v_of(x, 1) is Some && operand_of(y) is Some && operand_of(z) is Some
            ==> triple("v_sub_f32"@, x, y, z)
            == Some::<OpText>(OpOf::VSubF32 {
                dst: v_of(x, 1)->0,
                src0: operand_of(y)->0,
                src1: operand_of(z)->0,
            }),
        v_of(x, 1) is Some && operand_of(y) is Some && operand_of(z) is Some
            ==> triple("v_max_f32"@, x, y, z)
            == Some::<OpText>(OpOf::VMaxF32 {
                dst: v_of(x, 1)->0,
                src0: operand_of(y)->0,
                src1: operand_of(z)->0,
            }),
        v_of(x, 1) is Some && operand_of(y) is Some && operand_of(z) is Some
            ==> triple("v_min_f32"@, x, y, z)
            == Some::<OpText>(OpOf::VMinF32 {
                dst: v_of(x, 1)->0,
                src0: operand_of(y)->0,
                src1: operand_of(z)->0,
            }),
        v_of(x, 1) is Some && operand_of(y) is Some && operand_of(z) is Some
            ==> triple("v_min_u32"@, x, y, z)
            == Some::<OpText>(OpOf::VMinU32 {
                dst: v_of(x, 1)->0,
                src0: operand_of(y)->0,
                src1: operand_of(z)->0,
            }),
        v_of(x, 1) is Some && operand_of(y) is Some && operand_of(z) is Some
            ==> triple("v_add_nc_u32"@, x, y, z)
            == Some::<OpText>(OpOf::VAddU32 {
                dst: v_of(x, 1)->0,
                src0: operand_of(y)->0,
                src1: operand_of(z)->0,
            }),
        v_of(x, 1) is Some && operand_of(y) is Some && operand_of(z) is Some
            ==> triple("v_sub_u32"@, x, y, z)
            == Some::<OpText>(OpOf::VSubU32 {
                dst: v_of(x, 1)->0,
                src0: operand_of(y)->0,
                src1: operand_of(z)->0,
            }),
        v_of(x, 1) is Some && operand_of(y) is Some && operand_of(z) is Some
            ==> triple("v_and_b32"@, x, y, z)
            == Some::<OpText>(OpOf::VAndB32 {
                dst: v_of(x, 1)->0,
                src0: operand_of(y)->0,
                src1: operand_of(z)->0,
            }),
        v_of(x, 1) is Some && operand_of(y) is Some && operand_of(z) is Some
            ==> triple("v_or_b32"@, x, y, z)
            == Some::<OpText>(OpOf::VOrB32 {
                dst: v_of(x, 1)->0,
                src0: operand_of(y)->0,
                src1: operand_of(z)->0,
            }),
        v_of(x, 1) is Some && operand_of(y) is Some && operand_of(z) is Some
            ==> triple("v_xor_b32"@, x, y, z)
            == Some::<OpText>(OpOf::VXorB32 {
                dst: v_of(x, 1)->0,
                src0: operand_of(y)->0,
                src1: operand_of(z)->0,
            }),
        v_of(x, 1) is Some && v_of(y, 1) is Some && v_of(z, 1) is Some
            ==> triple("v_mul_lo_u32"@, x, y, z)
            == Some::<OpText>(OpOf::VMulLoU32 {
                dst: v_of(x, 1)->0,
                src0: v_of(y, 1)->0,
                src1: v_of(z, 1)->0,
            }),
        v_of(x, 1) is Some && word_of(y) is Some && v_of(z, 1) is Some
            ==> triple("v_lshlrev_b32"@, x, y, z)
            == Some::<OpText>(OpOf::VLshlrevB32 {
                dst: v_of(x, 1)->0,
                shift: word_of(y)->0 as u8,
                src: v_of(z, 1)->0,
            }),
        v_of(x, 1) is Some && word_of(y) is Some && v_of(z, 1) is Some
            ==> triple("v_lshrrev_b32"@, x, y, z)
            == Some::<OpText>(OpOf::VLshrrevB32 {
                dst: v_of(x, 1)->0,
                shift: word_of(y)->0 as u8,
                src: v_of(z, 1)->0,
            }),
        v_of(x, 1) is Some && v_of(y, 1) is Some && v_of(z, 1) is Some
            ==> triple("v_lshrrev_b32"@, x, y, z)
            == Some::<OpText>(OpOf::VLshrrevB32Vgpr {
                dst: v_of(x, 1)->0,
                shift: v_of(y, 1)->0,
                src: v_of(z, 1)->0,
            }),
{
    reveal(triple);
    lemma_names_b();
}

/// What tells names apart.
proof fn lemma_names_c()
    ensures
        "v_cmp_lt_u32"@.len() == 12 && "v_cmp_lt_u32"@[6] == 'l'
            && "v_cmp_lt_u32"@[7] == 't' && "v_cmp_lt_u32"@[9] == 'u',
        "v_cmp_ge_u32"@.len() == 12 && "v_cmp_ge_u32"@[6] == 'g'
            && "v_cmp_ge_u32"@[7] == 'e' && "v_cmp_ge_u32"@[9] == 'u',
        "v_cmp_gt_u32"@.len() == 12 && "v_cmp_gt_u32"@[6] == 'g'
            && "v_cmp_gt_u32"@[7] == 't' && "v_cmp_gt_u32"@[9] == 'u',
        "v_cmp_eq_u32"@.len() == 12 && "v_cmp_eq_u32"@[6] == 'e'
            && "v_cmp_eq_u32"@[7] == 'q' && "v_cmp_eq_u32"@[9] == 'u',
        "v_cmp_eq_f32"@.len() == 12 && "v_cmp_eq_f32"@[6] == 'e'
            && "v_cmp_eq_f32"@[7] == 'q' && "v_cmp_eq_f32"@[9] == 'f',
        "v_cmp_gt_f32"@.len() == 12 && "v_cmp_gt_f32"@[6] == 'g'
            && "v_cmp_gt_f32"@[7] == 't' && "v_cmp_gt_f32"@[9] == 'f',
        "v_cmp_lt_f32"@.len() == 12 && "v_cmp_lt_f32"@[6] == 'l'
            && "v_cmp_lt_f32"@[7] == 't' && "v_cmp_lt_f32"@[9] == 'f',
        "v_cmp_ge_f32"@.len() == 12 && "v_cmp_ge_f32"@[6] == 'g'
            && "v_cmp_ge_f32"@[7] == 'e' && "v_cmp_ge_f32"@[9] == 'f',
        "v_cmp_ge_i32"@.len() == 12 && "v_cmp_ge_i32"@[6] == 'g'
            && "v_cmp_ge_i32"@[7] == 'e' && "v_cmp_ge_i32"@[9] == 'i',
{
    reveal_strlit("v_cmp_lt_u32");
    reveal_strlit("v_cmp_ge_u32");
    reveal_strlit("v_cmp_gt_u32");
    reveal_strlit("v_cmp_eq_u32");
    reveal_strlit("v_cmp_eq_f32");
    reveal_strlit("v_cmp_gt_f32");
    reveal_strlit("v_cmp_lt_f32");
    reveal_strlit("v_cmp_ge_f32");
    reveal_strlit("v_cmp_ge_i32");
}

/// Lines of comparisons.
#[verifier::spinoff_prover]
#[verifier::rlimit(60)]
proof fn lemma_comparison_texts(x: Seq<char>, y: Seq<char>, z: Seq<char>)
    ensures
        first_of(x) is Vcc && operand_of(y) is Some && operand_of(z) is Some
            ==> triple("v_cmp_lt_u32"@, x, y, z)
            == Some::<OpText>(OpOf::VCmpLtU32 { src0: operand_of(y)->0, src1: operand_of(z)->0 }),
        first_of(x) is Vcc && operand_of(y) is Some && operand_of(z) is Some
            ==> triple("v_cmp_ge_u32"@, x, y, z)
            == Some::<OpText>(OpOf::VCmpGeU32 { src0: operand_of(y)->0, src1: operand_of(z)->0 }),
        first_of(x) is Vcc && operand_of(y) is Some && operand_of(z) is Some
            ==> triple("v_cmp_gt_u32"@, x, y, z)
            == Some::<OpText>(OpOf::VCmpGtU32 { src0: operand_of(y)->0, src1: operand_of(z)->0 }),
        first_of(x) is Vcc && operand_of(y) is Some && operand_of(z) is Some
            ==> triple("v_cmp_eq_u32"@, x, y, z)
            == Some::<OpText>(OpOf::VCmpEqU32 { src0: operand_of(y)->0, src1: operand_of(z)->0 }),
        first_of(x) is Vcc && operand_of(y) is Some && operand_of(z) is Some
            ==> triple("v_cmp_eq_f32"@, x, y, z)
            == Some::<OpText>(OpOf::VCmpEqF32 { src0: operand_of(y)->0, src1: operand_of(z)->0 }),
        first_of(x) is Vcc && operand_of(y) is Some && operand_of(z) is Some
            ==> triple("v_cmp_gt_f32"@, x, y, z)
            == Some::<OpText>(OpOf::VCmpGtF32 { src0: operand_of(y)->0, src1: operand_of(z)->0 }),
        first_of(x) is Vcc && operand_of(y) is Some && operand_of(z) is Some
            ==> triple("v_cmp_lt_f32"@, x, y, z)
            == Some::<OpText>(OpOf::VCmpLtF32 { src0: operand_of(y)->0, src1: operand_of(z)->0 }),
        first_of(x) is Vcc && operand_of(y) is Some && operand_of(z) is Some
            ==> triple("v_cmp_ge_f32"@, x, y, z)
            == Some::<OpText>(OpOf::VCmpGeF32 { src0: operand_of(y)->0, src1: operand_of(z)->0 }),
        first_of(x) is Vcc && v_of(y, 1) is Some && v_of(z, 1) is Some
            ==> triple("v_cmp_ge_i32"@, x, y, z)
            == Some::<OpText>(OpOf::VCmpGeI32 { src0: v_of(y, 1)->0, src1: v_of(z, 1)->0 }),
{
    reveal(triple);
    lemma_names_c();
}

/// What tells names apart.
proof fn lemma_names_d()
    ensures
        "s_add_u32"@.len() == 9 && "s_add_u32"@[2] == 'a' && "s_add_u32"@[3] == 'd'
            && "s_add_u32"@[5] == '_' && "s_add_u32"@[8] == '2',
        "s_addc_u32"@.len() == 10 && "s_addc_u32"@[2] == 'a' && "s_addc_u32"@[3] == 'd'
            && "s_addc_u32"@[5] == 'c' && "s_addc_u32"@[8] == '3',
        "s_sub_u32"@.len() == 9 && "s_sub_u32"@[2] == 's' && "s_sub_u32"@[3] == 'u'
            && "s_sub_u32"@[5] == '_' && "s_sub_u32"@[8] == '2',
        "s_and_b32"@.len() == 9 && "s_and_b32"@[2] == 'a' && "s_and_b32"@[3] == 'n'
            && "s_and_b32"@[5] == '_' && "s_and_b32"@[8] == '2',
        "s_mul_i32"@.len() == 9 && "s_mul_i32"@[2] == 'm' && "s_mul_i32"@[3] == 'u'
            && "s_mul_i32"@[5] == '_' && "s_mul_i32"@[8] == '2',
        "s_lshl_b32"@.len() == 10 && "s_lshl_b32"@[2] == 'l' && "s_lshl_b32"@[3] == 's'
            && "s_lshl_b32"@[5] == 'l' && "s_lshl_b32"@[8] == '3',
        "s_lshr_b32"@.len() == 10 && "s_lshr_b32"@[2] == 'l' && "s_lshr_b32"@[3] == 's'
            && "s_lshr_b32"@[5] == 'r' && "s_lshr_b32"@[8] == '3',
        "s_xor_b32"@.len() == 9 && "s_xor_b32"@[2] == 'x' && "s_xor_b32"@[3] == 'o'
            && "s_xor_b32"@[5] == '_' && "s_xor_b32"@[8] == '2',
        "s_load_b32"@.len() == 10 && "s_load_b32"@[2] == 'l' && "s_load_b32"@[3] == 'o'
            && "s_load_b32"@[5] == 'd' && "s_load_b32"@[8] == '3',
        "s_load_b64"@.len() == 10 && "s_load_b64"@[2] == 'l' && "s_load_b64"@[3] == 'o'
            && "s_load_b64"@[5] == 'd' && "s_load_b64"@[8] == '6',
        "s_load_b128"@.len() == 11 && "s_load_b128"@[2] == 'l' && "s_load_b128"@[3] == 'o'
            && "s_load_b128"@[5] == 'd' && "s_load_b128"@[8] == '1',
{
    reveal_strlit("s_add_u32");
    reveal_strlit("s_addc_u32");
    reveal_strlit("s_sub_u32");
    reveal_strlit("s_and_b32");
    reveal_strlit("s_mul_i32");
    reveal_strlit("s_lshl_b32");
    reveal_strlit("s_lshr_b32");
    reveal_strlit("s_xor_b32");
    reveal_strlit("s_load_b32");
    reveal_strlit("s_load_b64");
    reveal_strlit("s_load_b128");
}

/// Lines of scalar operations of two sources, and of loads.
#[verifier::spinoff_prover]
#[verifier::rlimit(60)]
proof fn lemma_scalar_result_texts(x: Seq<char>, y: Seq<char>, z: Seq<char>)
    ensures
        s_of(x, 1) is Some && s_of(y, 1) is Some && soperand_of(z) is Some
            ==> triple("s_add_u32"@, x, y, z)
            == Some::<OpText>(OpOf::SAddU32 {
                dst: s_of(x, 1)->0,
                src0: s_of(y, 1)->0,
                src1: soperand_of(z)->0,
            }),
        s_of(x, 1) is Some && s_of(y, 1) is Some && soperand_of(z) is Some
            ==> triple("s_addc_u32"@, x, y, z)
            == Some::<OpText>(OpOf::SAddcU32 {
                dst: s_of(x, 1)->0,
                src0: s_of(y, 1)->0,
                src1: soperand_of(z)->0,
            }),
        s_of(x, 1) is Some && s_of(y, 1) is Some && soperand_of(z) is Some
            ==> triple("s_sub_u32"@, x, y, z)
            == Some::<OpText>(OpOf::SSubU32 {
                dst: s_of(x, 1)->0,
                src0: s_of(y, 1)->0,
                src1: soperand_of(z)->0,
            }),
        s_of(x, 1) is Some && s_of(y, 1) is Some && soperand_of(z) is Some
            ==> triple("s_and_b32"@, x, y, z)
            == Some::<OpText>(OpOf::SAndB32 {
                dst: s_of(x, 1)->0,
                src0: s_of(y, 1)->0,
                src1: soperand_of(z)->0,
            }),
        s_of(x, 1) is Some && s_of(y, 1) is Some && s_of(z, 1) is Some
            ==> triple("s_mul_i32"@, x, y, z)
            == Some::<OpText>(OpOf::SMulI32 {
                dst: s_of(x, 1)->0,
                src0: s_of(y, 1)->0,
                src1: s_of(z, 1)->0,
            }),
        s_of(x, 1) is Some && s_of(y, 1) is Some && word_of(z) is Some
            ==> triple("s_lshl_b32"@, x, y, z)
            == Some::<OpText>(OpOf::SLshlB32 {
                dst: s_of(x, 1)->0,
                src: s_of(y, 1)->0,
                shift: word_of(z)->0 as u8,
            }),
        s_of(x, 1) is Some && s_of(y, 1) is Some && word_of(z) is Some
            ==> triple("s_lshr_b32"@, x, y, z)
            == Some::<OpText>(OpOf::SLshrB32 {
                dst: s_of(x, 1)->0,
                src: s_of(y, 1)->0,
                shift: word_of(z)->0 as u8,
            }),
        first_of(x) is Exec && first_of(y) is Exec && s_of(z, 1) is Some
            ==> triple("s_xor_b32"@, x, y, z)
            == Some::<OpText>(OpOf::XorExec { saved: s_of(z, 1)->0 }),
        s_of(x, 1) is Some && s_of(y, 2) is Some && word_of(z) is Some
            ==> triple("s_load_b32"@, x, y, z)
            == Some::<OpText>(OpOf::ScalarLoad {
                dst: s_of(x, 1)->0,
                base: SRegPair((s_of(y, 2)->0).0),
                offset: word_of(z)->0,
                width: Width::B32,
            }),
        s_of(x, 2) is Some && s_of(y, 2) is Some && word_of(z) is Some
            ==> triple("s_load_b64"@, x, y, z)
            == Some::<OpText>(OpOf::ScalarLoad {
                dst: s_of(x, 2)->0,
                base: SRegPair((s_of(y, 2)->0).0),
                offset: word_of(z)->0,
                width: Width::B64,
            }),
        s_of(x, 4) is Some && s_of(y, 2) is Some && word_of(z) is Some
            ==> triple("s_load_b128"@, x, y, z)
            == Some::<OpText>(OpOf::ScalarLoad {
                dst: s_of(x, 4)->0,
                base: SRegPair((s_of(y, 2)->0).0),
                offset: word_of(z)->0,
                width: Width::B128,
            }),
{
    reveal(triple);
    lemma_names_d();
}

/// What tells names apart.
proof fn lemma_names_e()
    ensures
        "v_fma_f32"@.len() == 9 && "v_fma_f32"@[3] == 'm',
        "v_and_or_b32"@.len() == 12 && "v_and_or_b32"@[3] == 'n',
        "v_permlanex16_b32"@.len() == 17 && "v_permlanex16_b32"@[3] == 'e',
        "v_add_co_u32"@.len() == 12 && "v_add_co_u32"@[3] == 'd',
        "v_cndmask_b32"@.len() == 13 && "v_cndmask_b32"@[3] == 'n',
        "global_atomic_add_u32"@.len() == 21 && "global_atomic_add_u32"@[3] == 'b',
        "v_wmma_f32_16x16x16_bf16"@.len() == 24 && "v_wmma_f32_16x16x16_bf16"@[3] == 'm',
        "v_wmma_f32_16x16x16_f16"@.len() == 23 && "v_wmma_f32_16x16x16_f16"@[3] == 'm',
        "v_wmma_bf16_16x16x16_bf16"@.len() == 25 && "v_wmma_bf16_16x16x16_bf16"@[3] == 'm',
        "v_add_co_ci_u32"@.len() == 15 && "v_add_co_ci_u32"@[3] == 'd',
{
    reveal_strlit("v_fma_f32");
    reveal_strlit("v_and_or_b32");
    reveal_strlit("v_permlanex16_b32");
    reveal_strlit("v_add_co_u32");
    reveal_strlit("v_cndmask_b32");
    reveal_strlit("global_atomic_add_u32");
    reveal_strlit("v_wmma_f32_16x16x16_bf16");
    reveal_strlit("v_wmma_f32_16x16x16_f16");
    reveal_strlit("v_wmma_bf16_16x16x16_bf16");
    reveal_strlit("v_add_co_ci_u32");
}

/// Lines of operations of three sources.
#[verifier::spinoff_prover]
#[verifier::rlimit(60)]
proof fn lemma_four_texts(x: Seq<char>, y: Seq<char>, z: Seq<char>, u: Seq<char>)
    ensures
        v_of(x, 1) is Some && operand_of(y) is Some && operand_of(z) is Some
            && operand_of(u) is Some ==> four("v_fma_f32"@, x, y, z, u)
            == Some::<OpText>(OpOf::VFmaF32 {
                dst: v_of(x, 1)->0,
                src0: operand_of(y)->0,
                src1: operand_of(z)->0,
                src2: operand_of(u)->0,
            }),
        v_of(x, 1) is Some && v_of(y, 1) is Some && word_of(z) is Some
            && v_of(u, 1) is Some ==> four("v_and_or_b32"@, x, y, z, u)
            == Some::<OpText>(OpOf::VAndOrB32 {
                dst: v_of(x, 1)->0,
                src0: v_of(y, 1)->0,
                literal: word_of(z)->0,
                src2: v_of(u, 1)->0,
            }),
        v_of(x, 1) is Some && v_of(y, 1) is Some && s_of(z, 1) == Some(SReg(0))
            && s_of(u, 1) == Some(SReg(0)) ==> four("v_permlanex16_b32"@, x, y, z, u)
            == Some::<OpText>(OpOf::VPermlanex16B32 { dst: v_of(x, 1)->0, src: v_of(y, 1)->0 }),
        v_of(x, 1) is Some && first_of(y) is Vcc && v_of(z, 1) is Some
            && v_of(u, 1) is Some ==> four("v_add_co_u32"@, x, y, z, u)
            == Some::<OpText>(OpOf::VAddCo {
                dst: v_of(x, 1)->0,
                src0: v_of(z, 1)->0,
                src1: v_of(u, 1)->0,
            }),
        v_of(x, 1) is Some && operand_of(y) is Some && operand_of(z) is Some
            && first_of(u) is Vcc ==> four("v_cndmask_b32"@, x, y, z, u)
            == Some::<OpText>(OpOf::VCndmaskB32 {
                dst: v_of(x, 1)->0,
                src_false: operand_of(y)->0,
                src_true: operand_of(z)->0,
            }),
        v_of(x, 1) is Some && v_of(y, 2) is Some && v_of(z, 1) is Some
            && first_of(u) is Off && behind(u, ' ') == "glc"@
            ==> four("global_atomic_add_u32"@, x, y, z, u)
            == Some::<OpText>(OpOf::GlobalAtomicAddU32Rtn {
                dst: v_of(x, 1)->0,
                addr: v_of(y, 2)->0,
                src: v_of(z, 1)->0,
            }),
        v_of(x, 8) is Some && v_of(y, 8) is Some && v_of(z, 8) is Some
            && v_of(u, 8) is Some ==> four("v_wmma_f32_16x16x16_bf16"@, x, y, z, u)
            == Some::<OpText>(OpOf::Wmma {
                dst: v_of(x, 8)->0,
                a: v_of(y, 8)->0,
                b: v_of(z, 8)->0,
                c: v_of(u, 8)->0,
                format: WmmaFormat::BF16_F32,
            }),
        v_of(x, 8) is Some && v_of(y, 8) is Some && v_of(z, 8) is Some
            && v_of(u, 8) is Some ==> four("v_wmma_f32_16x16x16_f16"@, x, y, z, u)
            == Some::<OpText>(OpOf::Wmma {
                dst: v_of(x, 8)->0,
                a: v_of(y, 8)->0,
                b: v_of(z, 8)->0,
                c: v_of(u, 8)->0,
                format: WmmaFormat::F16_F32,
            }),
        v_of(x, 8) is Some && v_of(y, 8) is Some && v_of(z, 8) is Some
            && v_of(u, 8) is Some ==> four("v_wmma_bf16_16x16x16_bf16"@, x, y, z, u)
            == Some::<OpText>(OpOf::Wmma {
                dst: v_of(x, 8)->0,
                a: v_of(y, 8)->0,
                b: v_of(z, 8)->0,
                c: v_of(u, 8)->0,
                format: WmmaFormat::BF16_BF16,
            }),
{
    reveal(four);
    lemma_names_e();
}

/// Operations of one source.
#[verifier::spinoff_prover]
#[verifier::rlimit(40)]
proof fn lemma_unary(op: Op, ra: RegAlloc)
    requires
        op is VCvtF32U32 || op is VCvtU32F32 || op is VRsqF32 || op is VExpF32
            || op is VSinF32 || op is VCosF32 || op is VRcpF32 || op is VSqrtF32
            || op is VLog2F32,
        !(op matches OpOf::ScalarLoad { width: Width::B16, .. }),
    ensures
        instruction(mnemonic_of(op), operands_of(op, ra)) == placed(op, ra),
        placed(op, ra) is Some,
{
    lemma_parts(ra);
    lemma_names_a();
    reveal(pair);
}

/// What tells names apart.
proof fn lemma_names_f()
    ensures
        "global_load_u16"@.len() == 15 && "global_load_u16"@[14] == '6',
        "global_load_b32"@.len() == 15 && "global_load_b32"@[14] == '2',
        "global_load_b64"@.len() == 15 && "global_load_b64"@[14] == '4',
        "global_load_b128"@.len() == 16 && "global_load_b128"@[14] == '2',
        "global_store_b16"@.len() == 16 && "global_store_b16"@[14] == '1',
        "global_store_b32"@.len() == 16 && "global_store_b32"@[14] == '3',
        "global_store_b64"@.len() == 16 && "global_store_b64"@[14] == '6',
        "global_store_b128"@.len() == 17 && "global_store_b128"@[14] == '1',
        "global_atomic_add_f32"@.len() == 21 && "global_atomic_add_f32"@[14] == 'a',
{
    reveal_strlit("global_load_u16");
    reveal_strlit("global_load_b32");
    reveal_strlit("global_load_b64");
    reveal_strlit("global_load_b128");
    reveal_strlit("global_store_b16");
    reveal_strlit("global_store_b32");
    reveal_strlit("global_store_b64");
    reveal_strlit("global_store_b128");
    reveal_strlit("global_atomic_add_f32");
}

/// Accesses to global memory.
#[verifier::spinoff_prover]
#[verifier::rlimit(40)]
proof fn lemma_global(op: Op, ra: RegAlloc)
    requires
        op is GlobalLoad || op is GlobalStore || op is GlobalAtomicAddF32,
        !(op matches OpOf::ScalarLoad { width: Width::B16, .. }),
    ensures
        instruction(mnemonic_of(op), operands_of(op, ra)) == placed(op, ra),
        placed(op, ra) is Some,
{
    lemma_parts(ra);
    lemma_names_f();
    reveal(triple);
    lemma_special();
    match op {
        OpOf::GlobalLoad { offset, .. }
        | OpOf::GlobalStore { offset, .. }
        | OpOf::GlobalAtomicAddF32 { offset, .. } => {
            lemma_offset("off"@, offset as int);
        },
        _ => {},
    }
}

/// What tells names apart.
proof fn lemma_names_g()
    ensures
        "v_fma_f32"@.len() == 9 && "v_fma_f32"@[3] == 'm',
        "v_and_or_b32"@.len() == 12 && "v_and_or_b32"@[3] == 'n',
        "v_permlanex16_b32"@.len() == 17 && "v_permlanex16_b32"@[3] == 'e'
            && "v_permlanex16_b32"@[14] == 'b',
        "v_add_co_u32"@.len() == 12 && "v_add_co_u32"@[3] == 'd',
        "v_cndmask_b32"@.len() == 13 && "v_cndmask_b32"@[3] == 'n',
        "global_atomic_add_u32"@.len() == 21 && "global_atomic_add_u32"@[3] == 'b'
            && "global_atomic_add_u32"@[14] == 'a',
        "buffer_load_u16"@.len() == 15 && "buffer_load_u16"@[3] == 'f'
            && "buffer_load_u16"@[14] == '6',
        "buffer_load_b32"@.len() == 15 && "buffer_load_b32"@[3] == 'f'
            && "buffer_load_b32"@[14] == '2',
        "buffer_load_b64"@.len() == 15 && "buffer_load_b64"@[3] == 'f'
            && "buffer_load_b64"@[14] == '4',
        "buffer_load_b128"@.len() == 16 && "buffer_load_b128"@[3] == 'f'
            && "buffer_load_b128"@[14] == '2',
        "buffer_store_b16"@.len() == 16 && "buffer_store_b16"@[3] == 'f'
            && "buffer_store_b16"@[14] == '1',
        "buffer_store_b32"@.len() == 16 && "buffer_store_b32"@[3] == 'f'
            && "buffer_store_b32"@[14] == '3',
        "buffer_store_b64"@.len() == 16 && "buffer_store_b64"@[3] == 'f'
            && "buffer_store_b64"@[14] == '6',
        "buffer_store_b128"@.len() == 17 && "buffer_store_b128"@[3] == 'f'
            && "buffer_store_b128"@[14] == '1',
{
    reveal_strlit("v_fma_f32");
    reveal_strlit("v_and_or_b32");
    reveal_strlit("v_permlanex16_b32");
    reveal_strlit("v_add_co_u32");
    reveal_strlit("v_cndmask_b32");
    reveal_strlit("global_atomic_add_u32");
    reveal_strlit("buffer_load_u16");
    reveal_strlit("buffer_load_b32");
    reveal_strlit("buffer_load_b64");
    reveal_strlit("buffer_load_b128");
    reveal_strlit("buffer_store_b16");
    reveal_strlit("buffer_store_b32");
    reveal_strlit("buffer_store_b64");
    reveal_strlit("buffer_store_b128");
}

/// Accesses to buffers.
#[verifier::spinoff_prover]
#[verifier::rlimit(60)]
proof fn lemma_buffer(op: Op, ra: RegAlloc)
    requires
        op is BufferLoad || op is BufferStore,
        !(op matches OpOf::ScalarLoad { width: Width::B16, .. }),
    ensures
        instruction(mnemonic_of(op), operands_of(op, ra)) == placed(op, ra),
        placed(op, ra) is Some,
{
    lemma_parts(ra);
    lemma_names_g();
    reveal(four);
    lemma_special();
    match op {
        OpOf::BufferLoad { soffset, offset, .. } | OpOf::BufferStore { soffset, offset, .. } => {
            lemma_buffer_part(soffset, offset, ra);
        },
        _ => {},
    }
}

proof fn lemma_buffer_part(soffset: SReg, offset: u16, ra: RegAlloc)
    ensures
        ({
            let u = soffset_text(soffset, ra) + " offen"@ + offset_text(offset as int);
            &&& first_of(u) == if soffset.0 == SOFFSET_ZERO {
                Arg::Word(0)
            } else {
                Arg::S(ra.s(soffset) as nat, 1)
            }
            &&& up_to(behind(u, ' '), ' ') == "offen"@
            &&& offset_of(behind(behind(u, ' '), ' ')) == offset
        }),
{
    lemma_parts(ra);
    lemma_special();
    reveal_strlit(" offen");
    reveal_strlit("offen");
    assert(solid("offen"@)) by {
        reveal(solid);
    }
    let a = soffset_text(soffset, ra);
    let u = a + " offen"@ + offset_text(offset as int);
    let more = "offen"@ + offset_text(offset as int);
    assert(u =~= a + seq![' '] + more);
    lemma_first(a, more);
    lemma_offset("offen"@, offset as int);
    if offset == 0 {
        assert(more =~= "offen"@);
        lemma_up_to_all("offen"@, ' ');
    } else {
        let words = "offset:"@ + int_text(offset as int);
        assert(more =~= "offen"@ + seq![' '] + words);
        lemma_up_to("offen"@, ' ', words);
    }
}

/// What tells names apart.
proof fn lemma_names_h()
    ensures
        "s_branch"@.len() == 8 && "s_branch"@[2] == 'b',
        "s_cbranch_scc0"@.len() == 14 && "s_cbranch_scc0"@[2] == 'c'
            && "s_cbranch_scc0"@[13] == '0',
        "s_cbranch_scc1"@.len() == 14 && "s_cbranch_scc1"@[2] == 'c'
            && "s_cbranch_scc1"@[13] == '1',
        "s_cbranch_vccz"@.len() == 14 && "s_cbranch_vccz"@[2] == 'c'
            && "s_cbranch_vccz"@[13] == 'z',
        "s_barrier"@.len() == 9 && "s_barrier"@[2] == 'b',
        "s_endpgm"@.len() == 8 && "s_endpgm"@[2] == 'e',
{
    reveal_strlit("s_branch");
    reveal_strlit("s_cbranch_scc0");
    reveal_strlit("s_cbranch_scc1");
    reveal_strlit("s_cbranch_vccz");
    reveal_strlit("s_barrier");
    reveal_strlit("s_endpgm");
}

/// Jumps, barriers and the end.
#[verifier::spinoff_prover]
#[verifier::rlimit(40)]
proof fn lemma_jump(op: Op, ra: RegAlloc)
    requires
        op is Branch || op is BranchScc0 || op is BranchScc1 || op is BranchVccz
            || op is Barrier || op is SBarrier || op is Endpgm,
        !(op matches OpOf::ScalarLoad { width: Width::B16, .. }),
    ensures
        instruction(mnemonic_of(op), operands_of(op, ra)) == placed(op, ra),
        placed(op, ra) is Some,
{
    lemma_parts(ra);
    lemma_names_h();
    reveal_strlit(".L");
    match op {
        OpOf::Branch(target)
        | OpOf::BranchScc0(target)
        | OpOf::BranchScc1(target)
        | OpOf::BranchVccz(target) => {
            assert((".L"@ + target@).skip(2) =~= target@);
        },
        _ => {},
    }
}

/// The number of the workgroup.
#[verifier::spinoff_prover]
#[verifier::rlimit(40)]
proof fn lemma_capture(op: Op, ra: RegAlloc)
    requires
        op is CaptureTgid,
        !(op matches OpOf::ScalarLoad { width: Width::B16, .. }),
    ensures
        instruction(mnemonic_of(op), operands_of(op, ra)) == placed(op, ra),
        placed(op, ra) is Some,
{
    lemma_parts(ra);
    lemma_names_a();
    reveal(pair);
    reveal_strlit("  ; capture TGID.");
    lemma_literals();
    match op {
        OpOf::CaptureTgid { dst, axis } => {
            let r = "s"@ + dec((2 + axis) as nat);
            lemma_registers('s', (2 + axis) as nat, 1);
            let remark = "  ; capture TGID."@ + axis_text(axis);
            assert(r + "  ; capture TGID."@ + axis_text(axis) =~= r + seq![' '] + remark.skip(1));
            lemma_first(r, remark.skip(1));
        },
        _ => {},
    }
}

/// Scalar moves, and comparisons with constants.
#[verifier::spinoff_prover]
#[verifier::rlimit(60)]
proof fn lemma_scalar_move(op: Op, ra: RegAlloc)
    requires
        op is SMov || op is SCmpEqU32,
        !(op matches OpOf::ScalarLoad { width: Width::B16, .. }),
    ensures
        instruction(mnemonic_of(op), operands_of(op, ra)) == placed(op, ra),
        placed(op, ra) is Some,
{
    lemma_fixed(ra);
    match op {
        OpOf::SMov { dst, src } => {
            lemma_s(dst, ra);
            lemma_soperand(src, ra);
            lemma_scalar_texts(st(dst, ra), sot(src, ra));
        },
        OpOf::SCmpEqU32 { src0, src1 } => {
            lemma_s(src0, ra);
            lemma_soperand(src1, ra);
            lemma_scalar_texts(st(src0, ra), sot(src1, ra));
        },
        _ => {},
    }
}

/// Scalar comparisons and the execution mask.
#[verifier::spinoff_prover]
#[verifier::rlimit(60)]
proof fn lemma_scalar_pair(op: Op, ra: RegAlloc)
    requires
        op is SCmpLtU32 || op is SCmpGeU32 || op is ClearVcc || op is SMovToVcc
            || op is SaveExec || op is RestoreExec,
        !(op matches OpOf::ScalarLoad { width: Width::B16, .. }),
    ensures
        instruction(mnemonic_of(op), operands_of(op, ra)) == placed(op, ra),
        placed(op, ra) is Some,
{
    lemma_fixed(ra);
    match op {
        OpOf::SCmpLtU32 { src0, src1 }
        | OpOf::SCmpGeU32 { src0, src1 } => {
            lemma_s(src0, ra);
            lemma_s(src1, ra);
            lemma_scalar_texts(st(src0, ra), st(src1, ra));
        },
        OpOf::ClearVcc => {
            lemma_scalar_texts("vcc_lo"@, "0"@);
        },
        OpOf::SMovToVcc { src } => {
            lemma_s(src, ra);
            lemma_scalar_texts("vcc_lo"@, st(src, ra));
        },
        OpOf::SaveExec { dst } => {
            lemma_s(dst, ra);
            lemma_scalar_texts(st(dst, ra), "vcc_lo"@);
        },
        OpOf::RestoreExec { src } => {
            lemma_s(src, ra);
            lemma_scalar_texts("exec_lo"@, st(src, ra));
        },
        _ => {},
    }
}

/// Moves.
#[verifier::spinoff_prover]
#[verifier::rlimit(60)]
proof fn lemma_move(op: Op, ra: RegAlloc)
    requires
        op is VReadfirstlane || op is VMov || op is VMovFromSgpr,
        !(op matches OpOf::ScalarLoad { width: Width::B16, .. }),
    ensures
        instruction(mnemonic_of(op), operands_of(op, ra)) == placed(op, ra),
        placed(op, ra) is Some,
{
    lemma_fixed(ra);
    match op {
        OpOf::VReadfirstlane { dst, src } => {
            lemma_s(dst, ra);
            lemma_v(src, ra);
            lemma_scalar_texts(st(dst, ra), vt(src, ra));
        },
        OpOf::VMov { dst, src } => {
            lemma_v(dst, ra);
            lemma_operand(src, ra);
            lemma_scalar_texts(vt(dst, ra), ot(src, ra));
        },
        OpOf::VMovFromSgpr { dst, src } => {
            lemma_v(dst, ra);
            lemma_s(src, ra);
            lemma_scalar_texts(vt(dst, ra), st(src, ra));
        },
        _ => {},
    }
}

/// Operations on the local data share.
#[verifier::spinoff_prover]
#[verifier::rlimit(60)]
proof fn lemma_share(op: Op, ra: RegAlloc)
    requires
        op is LdsLoad || op is LdsStore,
        !(op matches OpOf::ScalarLoad { width: Width::B16, .. }),
    ensures
        instruction(mnemonic_of(op), operands_of(op, ra)) == placed(op, ra),
        placed(op, ra) is Some,
{
    lemma_fixed(ra);
    match op {
        OpOf::LdsLoad { dst, addr, width, offset } => {
            let y = vt(addr, ra) + offset_text(offset as int);
            lemma_vr(dst, width.regs(), ra);
            lemma_v(addr, ra);
            lemma_offset(vt(addr, ra), offset as int);
            lemma_share_texts(vrt(dst, width.regs(), ra), y);
        },
        OpOf::LdsStore { addr, src, width, offset } => {
            let y = vrt(src, width.regs(), ra) + offset_text(offset as int);
            lemma_vr(src, width.regs(), ra);
            lemma_v(addr, ra);
            lemma_offset(vrt(src, width.regs(), ra), offset as int);
            lemma_share_texts(vt(addr, ra), y);
        },
        _ => {},
    }
}

/// Stores to the local data share, and swizzles.
#[verifier::spinoff_prover]
#[verifier::rlimit(60)]
proof fn lemma_share_words(op: Op, ra: RegAlloc)
    requires
        op is DsStoreB16 || op is DsStoreB32 || op is DsStoreB64 || op is DsStoreB128
            || op is DsSwizzle,
        !(op matches OpOf::ScalarLoad { width: Width::B16, .. }),
    ensures
        instruction(mnemonic_of(op), operands_of(op, ra)) == placed(op, ra),
        placed(op, ra) is Some,
{
    lemma_fixed(ra);
    match op {
        OpOf::DsStoreB16 { vaddr, src, offset }
        | OpOf::DsStoreB32 { vaddr, src, offset } => {
            let y = vt(src, ra) + " offset:"@ + dec(offset as nat);
            lemma_v(vaddr, ra);
            lemma_v(src, ra);
            lemma_written_offset(vt(src, ra), offset as nat);
            lemma_share_texts(vt(vaddr, ra), y);
        },
        OpOf::DsStoreB64 { vaddr, src, offset } => {
            let y = vrt(src, 2, ra) + " offset:"@ + dec(offset as nat);
            lemma_v(vaddr, ra);
            lemma_vr(src, 2, ra);
            lemma_written_offset(vrt(src, 2, ra), offset as nat);
            lemma_share_texts(vt(vaddr, ra), y);
        },
        OpOf::DsStoreB128 { vaddr, src, offset } => {
            let y = vrt(src, 4, ra) + " offset:"@ + dec(offset as nat);
            lemma_v(vaddr, ra);
            lemma_vr(src, 4, ra);
            lemma_written_offset(vrt(src, 4, ra), offset as nat);
            lemma_share_texts(vt(vaddr, ra), y);
        },
        OpOf::DsSwizzle { dst, src, offset } => {
            let y = vt(src, ra) + " offset:"@ + hex_padded(offset as nat, 4);
            lemma_v(dst, ra);
            lemma_v(src, ra);
            lemma_written_offset(vt(src, ra), offset as nat);
            lemma_share_texts(vt(dst, ra), y);
        },
        _ => {},
    }
}

/// Loads from the local data share.
#[verifier::spinoff_prover]
#[verifier::rlimit(60)]
proof fn lemma_share_loads(op: Op, ra: RegAlloc)
    requires
        op is DsLoadB32 || op is DsLoadU16 || op is DsLoadU16D16 || op is DsLoadU16D16Hi
            || op is DsLoadB64 || op is DsLoadB128,
        !(op matches OpOf::ScalarLoad { width: Width::B16, .. }),
    ensures
        instruction(mnemonic_of(op), operands_of(op, ra)) == placed(op, ra),
        placed(op, ra) is Some,
{
    lemma_fixed(ra);
    match op {
        OpOf::DsLoadB32 { dst, vaddr, offset }
        | OpOf::DsLoadU16 { dst, vaddr, offset }
        | OpOf::DsLoadU16D16 { dst, vaddr, offset }
        | OpOf::DsLoadU16D16Hi { dst, vaddr, offset } => {
            let y = vt(vaddr, ra) + " offset:"@ + dec(offset as nat);
            lemma_v(vaddr, ra);
            lemma_v(dst, ra);
            lemma_written_offset(vt(vaddr, ra), offset as nat);
            lemma_share_texts(vt(dst, ra), y);
        },
        OpOf::DsLoadB64 { dst, vaddr, offset } => {
            let y = vt(vaddr, ra) + " offset:"@ + dec(offset as nat);
            lemma_v(vaddr, ra);
            lemma_vr(dst, 2, ra);
            lemma_written_offset(vt(vaddr, ra), offset as nat);
            lemma_share_texts(vrt(dst, 2, ra), y);
        },
        OpOf::DsLoadB128 { dst, vaddr, offset } => {
            let y = vt(vaddr, ra) + " offset:"@ + dec(offset as nat);
            lemma_v(vaddr, ra);
            lemma_vr(dst, 4, ra);
            lemma_written_offset(vt(vaddr, ra), offset as nat);
            lemma_share_texts(vrt(dst, 4, ra), y);
        },
        _ => {},
    }
}

/// Operations of two sources, on floats.
#[verifier::spinoff_prover]
#[verifier::rlimit(60)]
proof fn lemma_binary_floats(op: Op, ra: RegAlloc)
    requires
        op is VAddF32 || op is VMulF32 || op is VSubF32 || op is VMaxF32
            || op is VMinF32,
        !(op matches OpOf::ScalarLoad { width: Width::B16, .. }),
    ensures
        instruction(mnemonic_of(op), operands_of(op, ra)) == placed(op, ra),
        placed(op, ra) is Some,
{
    lemma_fixed(ra);
    match op {
        OpOf::VAddF32 { dst, src0, src1 }
        | OpOf::VMulF32 { dst, src0, src1 }
        | OpOf::VSubF32 { dst, src0, src1 }
        | OpOf::VMaxF32 { dst, src0, src1 }
        | OpOf::VMinF32 { dst, src0, src1 } => {
            lemma_v(dst, ra);
            lemma_operand(src0, ra);
            lemma_operand(src1, ra);
            lemma_binary_texts(vt(dst, ra), ot(src0, ra), ot(src1, ra));
        },
        _ => {},
    }
}

/// Operations of two sources, on words.
#[verifier::spinoff_prover]
#[verifier::rlimit(60)]
proof fn lemma_binary(op: Op, ra: RegAlloc)
    requires
        op is VMinU32 || op is VAddU32 || op is VSubU32 || op is VAndB32 || op is VOrB32
            || op is VXorB32,
        !(op matches OpOf::ScalarLoad { width: Width::B16, .. }),
    ensures
        instruction(mnemonic_of(op), operands_of(op, ra)) == placed(op, ra),
        placed(op, ra) is Some,
{
    lemma_fixed(ra);
    match op {
        OpOf::VMinU32 { dst, src0, src1 }
        | OpOf::VAddU32 { dst, src0, src1 }
        | OpOf::VSubU32 { dst, src0, src1 }
        | OpOf::VAndB32 { dst, src0, src1 }
        | OpOf::VOrB32 { dst, src0, src1 }
        | OpOf::VXorB32 { dst, src0, src1 } => {
            lemma_v(dst, ra);
            lemma_operand(src0, ra);
            lemma_operand(src1, ra);
            lemma_binary_texts(vt(dst, ra), ot(src0, ra), ot(src1, ra));
        },
        _ => {},
    }
}

/// Products and shifts.
#[verifier::spinoff_prover]
#[verifier::rlimit(60)]
proof fn lemma_shift(op: Op, ra: RegAlloc)
    requires
        op is VMulLoU32 || op is VLshlrevB32 || op is VLshrrevB32
            || op is VLshrrevB32Vgpr,
        !(op matches OpOf::ScalarLoad { width: Width::B16, .. }),
    ensures
        instruction(mnemonic_of(op), operands_of(op, ra)) == placed(op, ra),
        placed(op, ra) is Some,
{
    lemma_fixed(ra);
    match op {
        OpOf::VMulLoU32 { dst, src0, src1 } => {
            lemma_v(dst, ra);
            lemma_v(src0, ra);
            lemma_v(src1, ra);
            lemma_binary_texts(vt(dst, ra), vt(src0, ra), vt(src1, ra));
        },
        OpOf::VLshlrevB32 { dst, shift, src }
        | OpOf::VLshrrevB32 { dst, shift, src } => {
            lemma_v(dst, ra);
            lemma_n(shift as u32, ra);
            lemma_v(src, ra);
            lemma_binary_texts(vt(dst, ra), dec(shift as nat), vt(src, ra));
        },
        OpOf::VLshrrevB32Vgpr { dst, shift, src } => {
            lemma_v(dst, ra);
            lemma_v(shift, ra);
            lemma_v(src, ra);
            lemma_binary_texts(vt(dst, ra), vt(shift, ra), vt(src, ra));
        },
        _ => {},
    }
}

/// Comparisons.
#[verifier::spinoff_prover]
#[verifier::rlimit(60)]
proof fn lemma_comparison(op: Op, ra: RegAlloc)
    requires
        op is VCmpLtU32 || op is VCmpGeU32 || op is VCmpGtU32 || op is VCmpEqU32
            || op is VCmpEqF32 || op is VCmpGtF32 || op is VCmpLtF32 || op is VCmpGeF32,
        !(op matches OpOf::ScalarLoad { width: Width::B16, .. }),
    ensures
        instruction(mnemonic_of(op), operands_of(op, ra)) == placed(op, ra),
        placed(op, ra) is Some,
{
    lemma_fixed(ra);
    match op {
        OpOf::VCmpLtU32 { src0, src1 }
        | OpOf::VCmpGeU32 { src0, src1 }
        | OpOf::VCmpGtU32 { src0, src1 }
        | OpOf::VCmpEqU32 { src0, src1 }
        | OpOf::VCmpEqF32 { src0, src1 }
        | OpOf::VCmpGtF32 { src0, src1 }
        | OpOf::VCmpLtF32 { src0, src1 }
        | OpOf::VCmpGeF32 { src0, src1 } => {
            lemma_operand(src0, ra);
            lemma_operand(src1, ra);
            lemma_comparison_texts("vcc_lo"@, ot(src0, ra), ot(src1, ra));
        },
        _ => {},
    }
}

/// Comparisons with registers and numbers.
#[verifier::spinoff_prover]
#[verifier::rlimit(60)]
proof fn lemma_comparison_fixed(op: Op, ra: RegAlloc)
    requires
        op is VCmpGtF32Imm0 || op is VCmpGtU32Imm || op is VCmpEqU32Imm
            || op is VCmpGeI32,
        !(op matches OpOf::ScalarLoad { width: Width::B16, .. }),
    ensures
        instruction(mnemonic_of(op), operands_of(op, ra)) == placed(op, ra),
        placed(op, ra) is Some,
{
    lemma_fixed(ra);
    match op {
        OpOf::VCmpGtF32Imm0 { src } => {
            lemma_v(src, ra);
            lemma_comparison_texts("vcc_lo"@, vt(src, ra), "0"@);
        },
        OpOf::VCmpGtU32Imm { src, imm }
        | OpOf::VCmpEqU32Imm { src, imm } => {
            lemma_v(src, ra);
            lemma_n(imm, ra);
            lemma_comparison_texts("vcc_lo"@, vt(src, ra), dec(imm as nat));
        },
        OpOf::VCmpGeI32 { src0, src1 } => {
            lemma_v(src0, ra);
            lemma_v(src1, ra);
            lemma_comparison_texts("vcc_lo"@, vt(src0, ra), vt(src1, ra));
        },
        _ => {},
    }
}

/// Scalar operations of two sources.
#[verifier::spinoff_prover]
#[verifier::rlimit(60)]
proof fn lemma_scalar_result(op: Op, ra: RegAlloc)
    requires
        op is SAddU32 || op is SAddcU32 || op is SSubU32 || op is SAndB32
            || op is SMulI32 || op is SLshlB32 || op is SLshrB32 || op is XorExec
            || op is ScalarLoad,
        !(op matches OpOf::ScalarLoad { width: Width::B16, .. }),
    ensures
        instruction(mnemonic_of(op), operands_of(op, ra)) == placed(op, ra),
        placed(op, ra) is Some,
{
    lemma_fixed(ra);
    match op {
        OpOf::SAddU32 { dst, src0, src1 }
        | OpOf::SAddcU32 { dst, src0, src1 }
        | OpOf::SSubU32 { dst, src0, src1 }
        | OpOf::SAndB32 { dst, src0, src1 } => {
            lemma_s(dst, ra);
            lemma_s(src0, ra);
            lemma_soperand(src1, ra);
            lemma_scalar_result_texts(st(dst, ra), st(src0, ra), sot(src1, ra));
        },
        OpOf::SMulI32 { dst, src0, src1 } => {
            lemma_s(dst, ra);
            lemma_s(src0, ra);
            lemma_s(src1, ra);
            lemma_scalar_result_texts(st(dst, ra), st(src0, ra), st(src1, ra));
        },
        OpOf::SLshlB32 { dst, src, shift }
        | OpOf::SLshrB32 { dst, src, shift } => {
            lemma_s(dst, ra);
            lemma_s(src, ra);
            lemma_n(shift as u32, ra);
            lemma_scalar_result_texts(st(dst, ra), st(src, ra), dec(shift as nat));
        },
        OpOf::XorExec { saved } => {
            lemma_s(saved, ra);
            lemma_scalar_result_texts("exec_lo"@, "exec_lo"@, st(saved, ra));
        },
        OpOf::ScalarLoad { dst, base, offset, width } => {
            let n = width.regs();
            lemma_literals();
            lemma_registers('s', 0, 2);
            lemma_first(range_text("s"@, 0, 2), Seq::empty());
            lemma_sr(dst, n, ra);
            lemma_sr(SReg(base.0), 2, ra);
            lemma_n(offset, ra);
            lemma_scalar_result_texts(
                srt(dst, n, ra),
                base_text(base, ra),
                hex_text(offset as nat),
            );
        },
        _ => {},
    }
}

/// The line of a sum with a carry.
proof fn lemma_five_text(x: Seq<char>, z: Seq<char>, ra: RegAlloc)
    requires
        v_of(x, 1) is Some,
        v_of(z, 1) is Some,
    ensures
        five("v_add_co_ci_u32"@, x, "vcc_lo"@, z, "0"@, "vcc_lo"@) == Some::<OpText>(
            OpOf::VAddCoCi { dst: v_of(x, 1)->0, src: v_of(z, 1)->0 },
        ),
{
    reveal(five);
    lemma_fixed(ra);
}

/// Products with sums.
#[verifier::spinoff_prover]
#[verifier::rlimit(60)]
proof fn lemma_fused(op: Op, ra: RegAlloc)
    requires
        op is VFmaF32,
        !(op matches OpOf::ScalarLoad { width: Width::B16, .. }),
    ensures
        instruction(mnemonic_of(op), operands_of(op, ra)) == placed(op, ra),
        placed(op, ra) is Some,
{
    lemma_fixed(ra);
    match op {
        OpOf::VFmaF32 { dst, src0, src1, src2 } => {
            lemma_v(dst, ra);
            lemma_operand(src0, ra);
            lemma_operand(src1, ra);
            lemma_operand(src2, ra);
            lemma_four_texts(vt(dst, ra), ot(src0, ra), ot(src1, ra), ot(src2, ra));
        },
        _ => {},
    }
}

/// Selections.
#[verifier::spinoff_prover]
#[verifier::rlimit(60)]
proof fn lemma_choice(op: Op, ra: RegAlloc)
    requires
        op is VCndmaskB32,
        !(op matches OpOf::ScalarLoad { width: Width::B16, .. }),
    ensures
        instruction(mnemonic_of(op), operands_of(op, ra)) == placed(op, ra),
        placed(op, ra) is Some,
{
    lemma_fixed(ra);
    match op {
        OpOf::VCndmaskB32 { dst, src_false, src_true } => {
            lemma_v(dst, ra);
            lemma_operand(src_false, ra);
            lemma_operand(src_true, ra);
            lemma_four_texts(vt(dst, ra), ot(src_false, ra), ot(src_true, ra), "vcc_lo"@);
        },
        _ => {},
    }
}

/// Operations of three sources.
#[verifier::spinoff_prover]
#[verifier::rlimit(60)]
proof fn lemma_four(op: Op, ra: RegAlloc)
    requires
        op is VAndOrB32 || op is VAddCo || op is VAddCOU32,
        !(op matches OpOf::ScalarLoad { width: Width::B16, .. }),
    ensures
        instruction(mnemonic_of(op), operands_of(op, ra)) == placed(op, ra),
        placed(op, ra) is Some,
{
    lemma_fixed(ra);
    match op {
        OpOf::VAndOrB32 { dst, src0, literal, src2 } => {
            lemma_v(dst, ra);
            lemma_v(src0, ra);
            lemma_n(literal, ra);
            lemma_v(src2, ra);
            lemma_four_texts(vt(dst, ra), vt(src0, ra), hex_text(literal as nat), vt(src2, ra));
        },
        OpOf::VAddCo { dst, src0, src1 }
        | OpOf::VAddCOU32 { dst, src0, src1 } => {
            lemma_v(dst, ra);
            lemma_v(src0, ra);
            lemma_v(src1, ra);
            lemma_four_texts(vt(dst, ra), "vcc_lo"@, vt(src0, ra), vt(src1, ra));
        },
        _ => {},
    }
}

/// Sums with a carry.
#[verifier::spinoff_prover]
#[verifier::rlimit(60)]
proof fn lemma_carry(op: Op, ra: RegAlloc)
    requires
        op is VAddCoCi || op is VAddCCU32,
        !(op matches OpOf::ScalarLoad { width: Width::B16, .. }),
    ensures
        instruction(mnemonic_of(op), operands_of(op, ra)) == placed(op, ra),
        placed(op, ra) is Some,
{
    lemma_fixed(ra);
    match op {
        OpOf::VAddCoCi { dst, src }
        | OpOf::VAddCCU32 { dst, src } => {
            lemma_v(dst, ra);
            lemma_v(src, ra);
            lemma_five_text(vt(dst, ra), vt(src, ra), ra);
        },
        _ => {},
    }
}

/// Matrix products, and what goes across lanes or comes back from memory.
#[verifier::spinoff_prover]
#[verifier::rlimit(60)]
proof fn lemma_matrix(op: Op, ra: RegAlloc)
    requires
        op is VPermlanex16B32 || op is GlobalAtomicAddU32Rtn || op is Wmma,
        !(op matches OpOf::ScalarLoad { width: Width::B16, .. }),
    ensures
        instruction(mnemonic_of(op), operands_of(op, ra)) == placed(op, ra),
        placed(op, ra) is Some,
{
    lemma_fixed(ra);
    match op {
        OpOf::VPermlanex16B32 { dst, src } => {
            reveal_strlit("s0");
            lemma_literals();
            lemma_registers('s', 0, 1);
            assert(dec(0) =~= seq!['0']);
            assert("s0"@ =~= range_text(seq!['s'], 0, 1));
            lemma_first("s0"@, Seq::empty());
            lemma_v(dst, ra);
            lemma_v(src, ra);
            lemma_four_texts(vt(dst, ra), vt(src, ra), "s0"@, "s0"@);
        },
        OpOf::GlobalAtomicAddU32Rtn { dst, addr, src } => {
            reveal_strlit("off glc");
            reveal_strlit("glc");
            lemma_literals();
            lemma_special();
            assert("off glc"@ =~= "off"@ + seq![' '] + "glc"@);
            lemma_first("off"@, "glc"@);
            lemma_v(dst, ra);
            lemma_vr(addr, 2, ra);
            lemma_v(src, ra);
            lemma_four_texts(vt(dst, ra), vrt(addr, 2, ra), vt(src, ra), "off glc"@);
        },
        OpOf::Wmma { dst, a, b, c, .. } => {
            lemma_vr(dst, 8, ra);
            lemma_vr(a, 8, ra);
            lemma_vr(b, 8, ra);
            lemma_vr(c, 8, ra);
            lemma_four_texts(vrt(dst, 8, ra), vrt(a, 8, ra), vrt(b, 8, ra), vrt(c, 8, ra));
        },
        _ => {},
    }
}

proof fn lemma_width(op: Op, ra: RegAlloc)
    requires
        encodable(op, ra),
    ensures
        !(op matches OpOf::ScalarLoad { width: Width::B16, .. }),
{
}

/// Every operation that is one line is written as a line that tells the machine to do that
/// operation, on the registers where it was placed.
#[verifier::spinoff_prover]
#[verifier::rlimit(30)]
pub proof fn lines_read_back(op: Op, ra: RegAlloc)
    requires
        encodable(op, ra),
        placed(op, ra) is Some,
    ensures
        op_text(op, ra) == line(mnemonic_of(op), operands_of(op, ra)),
        instruction(mnemonic_of(op), operands_of(op, ra)) == placed(op, ra),
{
    lemma_width(op, ra);
    if op is VCvtF32U32 || op is VCvtU32F32 || op is VRsqF32 || op is VExpF32
        || op is VSinF32 || op is VCosF32 || op is VRcpF32 || op is VSqrtF32
        || op is VLog2F32 {
        lemma_unary(op, ra);
    } else if op is SMov || op is SCmpEqU32 {
        lemma_scalar_move(op, ra);
    } else if op is SCmpLtU32 || op is SCmpGeU32 || op is ClearVcc || op is SMovToVcc
        || op is SaveExec || op is RestoreExec {
        lemma_scalar_pair(op, ra);
    } else if op is VReadfirstlane || op is VMov || op is VMovFromSgpr {
        lemma_move(op, ra);
    } else if op is DsStoreB16 || op is DsStoreB32 || op is DsStoreB64 || op is DsStoreB128
        || op is DsSwizzle {
        lemma_share_words(op, ra);
    } else if op is DsLoadB32 || op is DsLoadB64 || op is DsLoadB128 || op is DsLoadU16
        || op is DsLoadU16D16 || op is DsLoadU16D16Hi {
        lemma_share_loads(op, ra);
    } else if op is LdsLoad || op is LdsStore {
        lemma_share(op, ra);
    } else if op is VAddF32 || op is VMulF32 || op is VSubF32 || op is VMaxF32 || op is VMinF32 {
        lemma_binary_floats(op, ra);
    } else if op is VMinU32 || op is VAddU32 || op is VSubU32 || op is VAndB32 || op is VOrB32
        || op is VXorB32 {
        lemma_binary(op, ra);
    } else if op is VMulLoU32 || op is VLshlrevB32 || op is VLshrrevB32 || op is VLshrrevB32Vgpr {
        lemma_shift(op, ra);
    } else if op is VCmpLtU32 || op is VCmpGeU32 || op is VCmpGtU32 || op is VCmpEqU32
        || op is VCmpEqF32 || op is VCmpGtF32 || op is VCmpLtF32 || op is VCmpGeF32 {
        lemma_comparison(op, ra);
    } else if op is VCmpGtF32Imm0 || op is VCmpGtU32Imm || op is VCmpEqU32Imm || op is VCmpGeI32 {
        lemma_comparison_fixed(op, ra);
    } else if op is SAddU32 || op is SAddcU32 || op is SSubU32 || op is SAndB32 || op is SMulI32
        || op is SLshlB32 || op is SLshrB32 || op is XorExec || op is ScalarLoad {
        lemma_scalar_result(op, ra);
    } else if op is GlobalLoad || op is GlobalStore || op is GlobalAtomicAddF32 {
        lemma_global(op, ra);
    } else if op is VFmaF32 {
        lemma_fused(op, ra);
    } else if op is VCndmaskB32 {
        lemma_choice(op, ra);
    } else if op is VAndOrB32 || op is VAddCo || op is VAddCOU32 {
        lemma_four(op, ra);
    } else if op is VAddCoCi || op is VAddCCU32 {
        lemma_carry(op, ra);
    } else if op is VPermlanex16B32 || op is GlobalAtomicAddU32Rtn || op is Wmma {
        lemma_matrix(op, ra);
    } else if op is BufferLoad || op is BufferStore {
        lemma_buffer(op, ra);
    } else if op is Branch || op is BranchScc0 || op is BranchScc1 || op is BranchVccz
        || op is Barrier || op is SBarrier || op is Endpgm {
        lemma_jump(op, ra);
    } else if op is CaptureTgid {
        lemma_capture(op, ra);
    }
}

/// Lines that look the same tell to do the same: operations that differ where they were placed
/// are written differently.
pub proof fn different_operations_look_different(op: Op, other: Op, ra: RegAlloc)
    requires
        encodable(op, ra),
        encodable(other, ra),
        placed(op, ra) is Some,
        placed(other, ra) is Some,
        placed(op, ra) != placed(other, ra),
    ensures
        mnemonic_of(op) != mnemonic_of(other) || operands_of(op, ra) != operands_of(other, ra),
{
    lines_read_back(op, ra);
    lines_read_back(other, ra);
}

/// What can be written down: an operation that has registers with places is one line, or one of
/// a few that are several lines or no instruction.
pub proof fn operations_are_lines(op: Op, ra: RegAlloc)
    ensures
        placed(op, ra) is None <==> (op is Label || op is RawAsm || op is BufferWbl2
            || op is ComputeGlobalIdX || op is WaveReduceAddF32 || op is WaveReduceMaxF32
            || op is WaveReduceMinF32 || op is CvtPkBf16F32 || op is SMemLoadDword
            || op is ReadShaderCycles || op is WaitVmcnt || op is WaitLgkmcnt || op is WaitVscnt),
{
}

} // verus!
