//! Algebraic simplification and copy propagation.
//!
//! An operation that gives one of its sources back, or zero, becomes a move; floats are taken
//! for numbers there, infinities and the like apart. A source that is a copy of another
//! register is read from that register, so that the copy may become dead; registers that have
//! to stay consecutive are left alone.
use std::collections::HashMap;

use vstd::prelude::*;

use crate::compile::CoalescedGroup;
use crate::fold::{
    Known, agrees, check_names_group, const_of, float_result, int_result, learn, learned,
    names_group, op_sources, operand_const, operand_value, sources, whole,
};
use crate::ir::{
    Op, OpOf, Operand, VReg, op_has_side_effects, op_sreg_defs, op_vreg_defs, op_writes_scc,
    op_writes_vcc,
};
use crate::opt_passes::{hides_lanes, writes_vreg};

verus! {

broadcast use vstd::std_specs::hash::group_hash_axioms;

// ── Algebraic simplification ──
/// The bits of the float one.
pub const ONE_F32: u32 = 0x3F80_0000;

/// What a sum gives back: the other operand, if one is zero.
pub open spec fn sum_given(a: Operand, b: Operand, known: Known) -> Option<Operand> {
    if const_of(b, known) == Some(0u32) {
        Some(a)
    } else if const_of(a, known) == Some(0u32) {
        Some(b)
    } else {
        None
    }
}

/// What a difference gives back: the first operand, if the second is zero, and zero, if both
/// are the same.
pub open spec fn difference_given(a: Operand, b: Operand, known: Known, zero: Operand) -> Option<
    Operand,
> {
    if const_of(b, known) == Some(0u32) {
        Some(a)
    } else if a == b {
        Some(zero)
    } else {
        None
    }
}

/// What a product gives back: the other operand, if one is one, and zero, if one is zero.
pub open spec fn product_given(
    a: Operand,
    b: Operand,
    known: Known,
    one: u32,
    zero: Operand,
) -> Option<Operand> {
    if const_of(b, known) == Some(0u32) || const_of(a, known) == Some(0u32) {
        Some(zero)
    } else if const_of(b, known) == Some(one) {
        Some(a)
    } else if const_of(a, known) == Some(one) {
        Some(b)
    } else {
        None
    }
}

/// What an operation of a kind gives back of its sources, or zero, where that is its result.
pub open spec fn given_operand(op: Op, a: Operand, b: Operand, known: Known) -> Option<Operand> {
    let zero = Operand::InlineInt(0);
    let zero_f32 = Operand::InlineFloat(0);
    match op {
        OpOf::VAddU32 { .. } => sum_given(a, b, known),
        OpOf::VOrB32 { .. } => sum_given(a, b, known),
        OpOf::VXorB32 { .. } => sum_given(a, b, known),
        OpOf::VAddF32 { .. } => sum_given(a, b, known),
        OpOf::VSubU32 { .. } => difference_given(a, b, known, zero),
        OpOf::VSubF32 { .. } => difference_given(a, b, known, zero_f32),
        OpOf::VMulLoU32 { .. } => product_given(a, b, known, 1, zero),
        OpOf::VMulF32 { .. } => product_given(a, b, known, ONE_F32, zero_f32),
        OpOf::VAndB32 { .. } => if const_of(b, known) == Some(0u32) || const_of(a, known) == Some(
            0u32,
        ) {
            Some(zero)
        } else {
            None
        },
        _ => None,
    }
}

/// The operand that an operation gives back, and where to.
pub open spec fn given_back(op: Op, known: Known) -> Option<(VReg, Operand)> {
    match sources(op) {
        Some((dst, a, b)) => match given_operand(op, a, b, known) {
            Some(o) => Some((dst, o)),
            None => None,
        },
        None => None,
    }
}

/// An operation with a move in its place, if it gives an operand back.
pub open spec fn simpler_op(op: Op, known: Known) -> Op {
    match given_back(op, known) {
        Some((dst, src)) => OpOf::VMov { dst, src },
        None => op,
    }
}

/// What is known behind the first `n` operations when they are simplified.
pub open spec fn simple_known(ops: Seq<Op>, n: int) -> Known
    decreases n,
{
    if n <= 0 {
        Map::empty()
    } else {
        let before = simple_known(ops, n - 1);
        learned(simpler_op(ops[n - 1], before), before)
    }
}

/// The operations with a move in the place of those that give an operand back.
pub open spec fn simplified(ops: Seq<Op>) -> Seq<Op> {
    Seq::new(ops.len(), |i: int| simpler_op(ops[i], simple_known(ops, i)))
}

/// How many of the first `n` operations are simplified.
pub open spec fn simplified_count(ops: Seq<Op>, n: int) -> nat
    decreases n,
{
    if n <= 0 {
        0
    } else {
        simplified_count(ops, n - 1) + if given_back(
            ops[n - 1],
            simple_known(ops, n - 1),
        ) is Some {
            1nat
        } else {
            0
        }
    }
}

/// The operand that an operation gives back, and where to.
fn find_given_back(op: &Op, known: &HashMap<u32, u32>) -> (r: Option<(VReg, Operand)>)
    ensures
        r == given_back(*op, known@),
{
    match op_sources(op) {
        None => None,
        Some((dst, a, b)) => {
            let ca = operand_const(&a, known);
            let cb = operand_const(&b, known);
            let zero = Operand::InlineInt(0);
            let zero_f32 = Operand::InlineFloat(0);
            match op {
                OpOf::VAddU32 { .. }
                | OpOf::VOrB32 { .. }
                | OpOf::VXorB32 { .. }
                | OpOf::VAddF32 { .. } => {
                    if is_const(cb, 0) {
                        Some((dst, a))
                    } else if is_const(ca, 0) {
                        Some((dst, b))
                    } else {
                        None
                    }
                },
                OpOf::VSubU32 { .. } => {
                    if is_const(cb, 0) {
                        Some((dst, a))
                    } else if a == b {
                        Some((dst, zero))
                    } else {
                        None
                    }
                },
                OpOf::VSubF32 { .. } => {
                    if is_const(cb, 0) {
                        Some((dst, a))
                    } else if a == b {
                        Some((dst, zero_f32))
                    } else {
                        None
                    }
                },
                OpOf::VMulLoU32 { .. } => {
                    if is_const(cb, 0) || is_const(ca, 0) {
                        Some((dst, zero))
                    } else if is_const(cb, 1) {
                        Some((dst, a))
                    } else if is_const(ca, 1) {
                        Some((dst, b))
                    } else {
                        None
                    }
                },
                OpOf::VMulF32 { .. } => {
                    if is_const(cb, 0) || is_const(ca, 0) {
                        Some((dst, zero_f32))
                    } else if is_const(cb, ONE_F32) {
                        Some((dst, a))
                    } else if is_const(ca, ONE_F32) {
                        Some((dst, b))
                    } else {
                        None
                    }
                },
                OpOf::VAndB32 { .. } => {
                    if is_const(cb, 0) || is_const(ca, 0) {
                        Some((dst, zero))
                    } else {
                        None
                    }
                },
                _ => None,
            }
        },
    }
}

/// Whether bits are known to be some.
fn is_const(c: Option<u32>, bits: u32) -> (r: bool)
    ensures
        r == (c == Some(bits)),
{
    match c {
        Some(x) => x == bits,
        None => false,
    }
}

/// Simplifies operations. Returns them and how many of them were simplified.
pub fn simplify(ops: Vec<Op>) -> (r: (Vec<Op>, usize))
    ensures
        r.0@ == simplified(ops@),
        r.1 == simplified_count(ops@, ops@.len() as int),
        r.1 <= ops@.len(),
{
    let mut out: Vec<Op> = Vec::new();
    let mut known: HashMap<u32, u32> = HashMap::new();
    let mut count: usize = 0;
    let mut i: usize = 0;
    assert(known@ =~= simple_known(ops@, 0));
    while i < ops.len()
        invariant
            i <= ops.len(),
            out@ == simplified(ops@).take(i as int),
            known@ == simple_known(ops@, i as int),
            count == simplified_count(ops@, i as int),
            count <= i,
        decreases ops.len() - i,
    {
        let op: Op = match find_given_back(&ops[i], &known) {
            Some((dst, src)) => {
                count = count + 1;
                OpOf::VMov { dst, src }
            },
            None => ops[i].clone(),
        };
        assert(op == simplified(ops@)[i as int]);
        learn(&op, &mut known);
        out.push(op);
        i = i + 1;
        assert(simplified(ops@).take(i as int) =~= simplified(ops@).take(i - 1).push(op));
    }
    assert(out@ =~= simplified(ops@));
    (out, count)
}

/// A simplified operation moves what it computed: wherever the registers hold what is known
/// of them, the operand that an integer operation gives back is worth the result of the
/// operation on the bits of its sources, and that of a float operation, where its sources
/// hold whole numbers, the result on those.
pub proof fn simplified_values_are_right(op: Op, known: Known, regs: spec_fn(u32) -> u32)
    requires
        agrees(known, regs),
        given_back(op, known) is Some,
    ensures
        ({
            let (dst, src0, src1) = sources(op)->0;
            let (to, src) = given_back(op, known)->0;
            let a = operand_value(src0, regs);
            let b = operand_value(src1, regs);
            let result = operand_value(src, regs);
            &&& to == dst
            &&& match int_result(op, a, b) {
                Some(bits) => result == bits,
                None => whole(a) is Some && whole(b) is Some ==> whole(result) is Some
                    && float_result(op, whole(a)->0, whole(b)->0) == Some(whole(result)->0 as int),
            }
        }),
{
    let (dst, src0, src1) = sources(op)->0;
    let (to, src) = given_back(op, known)->0;
    let a = operand_value(src0, regs);
    let b = operand_value(src1, regs);
    lemma_const_value(src0, known, regs);
    lemma_const_value(src1, known, regs);
    assert(0i32 as u32 == 0u32);
    assert(a | 0u32 == a && 0u32 | b == b) by (bit_vector);
    assert(a ^ 0u32 == a && 0u32 ^ b == b) by (bit_vector);
    assert(a & 0u32 == 0 && 0u32 & b == 0) by (bit_vector);
    assert(a.wrapping_mul(0) == 0 && 0u32.wrapping_mul(b) == 0);
    assert(a.wrapping_mul(1) == a && 1u32.wrapping_mul(b) == b);
    assert(whole(0) == Some(0nat));
    assert(whole(ONE_F32) == Some(1nat)) by {
        vstd::arithmetic::power2::lemma2_to64();
        assert(ONE_F32 as nat / 0x80_0000 == 127 && ONE_F32 as nat % 0x80_0000 == 0);
        assert(vstd::arithmetic::power2::pow2(23) == 0x80_0000);
    }
    if whole(a) is Some && whole(b) is Some {
        let m = whole(a)->0;
        let n = whole(b)->0;
        assert(m * 1 == m && 1 * n == n && m * 0 == 0 && 0 * n == 0);
    }
}

/// What is known of an operand is what it is worth.
proof fn lemma_const_value(o: Operand, known: Known, regs: spec_fn(u32) -> u32)
    requires
        agrees(known, regs),
    ensures
        const_of(o, known) matches Some(bits) ==> operand_value(o, regs) == bits,
{
    match o {
        Operand::VReg(v) => {
            if known.contains_key(v.0) {
                assert(regs(v.0) == known[v.0]);
            }
        },
        _ => {},
    }
}

// ── Copy propagation ──
/// A copy: a register and the one that it was moved from.
pub type Copied = (VReg, VReg);

/// The register that a register is a copy of, if it is one.
pub open spec fn copy_of(copies: Seq<Copied>, v: VReg) -> Option<VReg>
    decreases copies.len(),
{
    if copies.len() == 0 {
        None
    } else if copies.last().0 == v {
        Some(copies.last().1)
    } else {
        copy_of(copies.drop_last(), v)
    }
}

/// An operand, read from the register that it is a copy of.
pub open spec fn source_of(o: Operand, copies: Seq<Copied>) -> Operand {
    match o {
        Operand::VReg(v) => match copy_of(copies, v) {
            Some(w) => Operand::VReg(w),
            None => o,
        },
        _ => o,
    }
}

/// An operation whose operands are read from the registers that they are copies of.
pub open spec fn propagated_op(op: Op, copies: Seq<Copied>) -> Op {
    match op {
        OpOf::VAddF32 { dst, src0, src1 } => OpOf::VAddF32 {
            dst,
            src0: source_of(src0, copies),
            src1: source_of(src1, copies),
        },
        OpOf::VMulF32 { dst, src0, src1 } => OpOf::VMulF32 {
            dst,
            src0: source_of(src0, copies),
            src1: source_of(src1, copies),
        },
        OpOf::VSubF32 { dst, src0, src1 } => OpOf::VSubF32 {
            dst,
            src0: source_of(src0, copies),
            src1: source_of(src1, copies),
        },
        OpOf::VMaxF32 { dst, src0, src1 } => OpOf::VMaxF32 {
            dst,
            src0: source_of(src0, copies),
            src1: source_of(src1, copies),
        },
        OpOf::VMinF32 { dst, src0, src1 } => OpOf::VMinF32 {
            dst,
            src0: source_of(src0, copies),
            src1: source_of(src1, copies),
        },
        OpOf::VMinU32 { dst, src0, src1 } => OpOf::VMinU32 {
            dst,
            src0: source_of(src0, copies),
            src1: source_of(src1, copies),
        },
        OpOf::VAddU32 { dst, src0, src1 } => OpOf::VAddU32 {
            dst,
            src0: source_of(src0, copies),
            src1: source_of(src1, copies),
        },
        OpOf::VSubU32 { dst, src0, src1 } => OpOf::VSubU32 {
            dst,
            src0: source_of(src0, copies),
            src1: source_of(src1, copies),
        },
        OpOf::VAndB32 { dst, src0, src1 } => OpOf::VAndB32 {
            dst,
            src0: source_of(src0, copies),
            src1: source_of(src1, copies),
        },
        OpOf::VOrB32 { dst, src0, src1 } => OpOf::VOrB32 {
            dst,
            src0: source_of(src0, copies),
            src1: source_of(src1, copies),
        },
        OpOf::VXorB32 { dst, src0, src1 } => OpOf::VXorB32 {
            dst,
            src0: source_of(src0, copies),
            src1: source_of(src1, copies),
        },
        OpOf::VFmaF32 { dst, src0, src1, src2 } => OpOf::VFmaF32 {
            dst,
            src0: source_of(src0, copies),
            src1: source_of(src1, copies),
            src2: source_of(src2, copies),
        },
        OpOf::VMov { dst, src } => OpOf::VMov {
            dst,
            src: source_of(src, copies),
        },
        OpOf::VCmpLtU32 { src0, src1 } => OpOf::VCmpLtU32 {
            src0: source_of(src0, copies),
            src1: source_of(src1, copies),
        },
        OpOf::VCmpGeU32 { src0, src1 } => OpOf::VCmpGeU32 {
            src0: source_of(src0, copies),
            src1: source_of(src1, copies),
        },
        OpOf::VCmpGtU32 { src0, src1 } => OpOf::VCmpGtU32 {
            src0: source_of(src0, copies),
            src1: source_of(src1, copies),
        },
        OpOf::VCmpEqU32 { src0, src1 } => OpOf::VCmpEqU32 {
            src0: source_of(src0, copies),
            src1: source_of(src1, copies),
        },
        OpOf::VCmpEqF32 { src0, src1 } => OpOf::VCmpEqF32 {
            src0: source_of(src0, copies),
            src1: source_of(src1, copies),
        },
        OpOf::VCmpGtF32 { src0, src1 } => OpOf::VCmpGtF32 {
            src0: source_of(src0, copies),
            src1: source_of(src1, copies),
        },
        OpOf::VCmpLtF32 { src0, src1 } => OpOf::VCmpLtF32 {
            src0: source_of(src0, copies),
            src1: source_of(src1, copies),
        },
        OpOf::VCmpGeF32 { src0, src1 } => OpOf::VCmpGeF32 {
            src0: source_of(src0, copies),
            src1: source_of(src1, copies),
        },
        OpOf::VCndmaskB32 { dst, src_false, src_true } => OpOf::VCndmaskB32 {
            dst,
            src_false: source_of(src_false, copies),
            src_true: source_of(src_true, copies),
        },
        _ => op,
    }
}

/// Whether an operand of an operation is a copy.
pub open spec fn reads_copy(op: Op, copies: Seq<Copied>) -> bool {
    match op {
        OpOf::VAddF32 { src0, src1, .. } => source_of(src0, copies) != src0
            || source_of(src1, copies) != src1,
        OpOf::VMulF32 { src0, src1, .. } => source_of(src0, copies) != src0
            || source_of(src1, copies) != src1,
        OpOf::VSubF32 { src0, src1, .. } => source_of(src0, copies) != src0
            || source_of(src1, copies) != src1,
        OpOf::VMaxF32 { src0, src1, .. } => source_of(src0, copies) != src0
            || source_of(src1, copies) != src1,
        OpOf::VMinF32 { src0, src1, .. } => source_of(src0, copies) != src0
            || source_of(src1, copies) != src1,
        OpOf::VMinU32 { src0, src1, .. } => source_of(src0, copies) != src0
            || source_of(src1, copies) != src1,
        OpOf::VAddU32 { src0, src1, .. } => source_of(src0, copies) != src0
            || source_of(src1, copies) != src1,
        OpOf::VSubU32 { src0, src1, .. } => source_of(src0, copies) != src0
            || source_of(src1, copies) != src1,
        OpOf::VAndB32 { src0, src1, .. } => source_of(src0, copies) != src0
            || source_of(src1, copies) != src1,
        OpOf::VOrB32 { src0, src1, .. } => source_of(src0, copies) != src0
            || source_of(src1, copies) != src1,
        OpOf::VXorB32 { src0, src1, .. } => source_of(src0, copies) != src0
            || source_of(src1, copies) != src1,
        OpOf::VFmaF32 { src0, src1, src2, .. } => source_of(src0, copies) != src0
            || source_of(src1, copies) != src1
            || source_of(src2, copies) != src2,
        OpOf::VMov { src, .. } => source_of(src, copies) != src,
        OpOf::VCmpLtU32 { src0, src1 } => source_of(src0, copies) != src0
            || source_of(src1, copies) != src1,
        OpOf::VCmpGeU32 { src0, src1 } => source_of(src0, copies) != src0
            || source_of(src1, copies) != src1,
        OpOf::VCmpGtU32 { src0, src1 } => source_of(src0, copies) != src0
            || source_of(src1, copies) != src1,
        OpOf::VCmpEqU32 { src0, src1 } => source_of(src0, copies) != src0
            || source_of(src1, copies) != src1,
        OpOf::VCmpEqF32 { src0, src1 } => source_of(src0, copies) != src0
            || source_of(src1, copies) != src1,
        OpOf::VCmpGtF32 { src0, src1 } => source_of(src0, copies) != src0
            || source_of(src1, copies) != src1,
        OpOf::VCmpLtF32 { src0, src1 } => source_of(src0, copies) != src0
            || source_of(src1, copies) != src1,
        OpOf::VCmpGeF32 { src0, src1 } => source_of(src0, copies) != src0
            || source_of(src1, copies) != src1,
        OpOf::VCndmaskB32 { src_false, src_true, .. } => source_of(src_false, copies) != src_false
            || source_of(src_true, copies) != src_true,
        _ => false,
    }
}

/// The copies that an operation does not overwrite.
pub open spec fn still_copies(copies: Seq<Copied>, op: Op) -> Seq<Copied>
    decreases copies.len(),
{
    if copies.len() == 0 {
        copies
    } else {
        let rest = still_copies(copies.drop_last(), op);
        let c = copies.last();
        if writes_vreg(op, c.0.0) || writes_vreg(op, c.1.0) {
            rest
        } else {
            rest.push(c)
        }
    }
}

/// An operation whose operands are read from the registers that they are copies of, unless it
/// names a register of a group.
pub open spec fn kept_or_propagated(
    op: Op,
    copies: Seq<Copied>,
    groups: Seq<CoalescedGroup>,
) -> Op {
    if names_group(op, groups) {
        op
    } else {
        propagated_op(op, copies)
    }
}

/// The copies behind an operation. Those with a register of a group are none.
pub open spec fn copies_behind(
    copies: Seq<Copied>,
    op: Op,
    groups: Seq<CoalescedGroup>,
) -> Seq<Copied> {
    if op is Label || hides_lanes(op) {
        Seq::empty()
    } else {
        let rest = still_copies(copies, op);
        match op {
            OpOf::VMov { dst, src: Operand::VReg(v) } => if v == dst || names_group(op, groups) {
                rest
            } else {
                rest.push((dst, v))
            },
            _ => rest,
        }
    }
}

/// The copies behind the first `n` operations.
pub open spec fn copies_at(ops: Seq<Op>, n: int, groups: Seq<CoalescedGroup>) -> Seq<Copied>
    decreases n,
{
    if n <= 0 {
        Seq::empty()
    } else {
        let before = copies_at(ops, n - 1, groups);
        copies_behind(before, kept_or_propagated(ops[n - 1], before, groups), groups)
    }
}

/// The operations with copies propagated.
pub open spec fn propagated(ops: Seq<Op>, groups: Seq<CoalescedGroup>) -> Seq<Op> {
    Seq::new(ops.len(), |i: int| kept_or_propagated(ops[i], copies_at(ops, i, groups), groups))
}

/// In how many of the first `n` operations a copy is propagated.
pub open spec fn propagated_count(ops: Seq<Op>, n: int, groups: Seq<CoalescedGroup>) -> nat
    decreases n,
{
    if n <= 0 {
        0
    } else {
        propagated_count(ops, n - 1, groups) + if !names_group(ops[n - 1], groups) && reads_copy(
            ops[n - 1],
            copies_at(ops, n - 1, groups),
        ) {
            1nat
        } else {
            0
        }
    }
}

/// An operand, read from the register that it is a copy of.
fn find_source(o: Operand, copies: &Vec<Copied>) -> (r: Operand)
    ensures
        r == source_of(o, copies@),
{
    match o {
        Operand::VReg(v) => {
            let mut i: usize = copies.len();
            assert(copies@.take(i as int) =~= copies@);
            while i > 0
                invariant
                    i <= copies.len(),
                    o == Operand::VReg(v),
                    copy_of(copies@, v) == copy_of(copies@.take(i as int), v),
                decreases i,
            {
                let ghost part = copies@.take(i as int);
                assert(part.last() == copies@[i - 1]);
                assert(part.drop_last() =~= copies@.take(i - 1));
                let c: Copied = copies[i - 1];
                if c.0 == v {
                    return Operand::VReg(c.1);
                }
                i = i - 1;
            }
            o
        },
        _ => o,
    }
}

/// An operation whose operands are read from the registers that they are copies of.
fn propagate_op(op: &Op, copies: &Vec<Copied>) -> (r: Op)
    ensures
        r == propagated_op(*op, copies@),
{
    match op {
        OpOf::VAddF32 { dst, src0, src1 } => OpOf::VAddF32 {
            dst: *dst,
            src0: find_source(*src0, copies),
            src1: find_source(*src1, copies),
        },
        OpOf::VMulF32 { dst, src0, src1 } => OpOf::VMulF32 {
            dst: *dst,
            src0: find_source(*src0, copies),
            src1: find_source(*src1, copies),
        },
        OpOf::VSubF32 { dst, src0, src1 } => OpOf::VSubF32 {
            dst: *dst,
            src0: find_source(*src0, copies),
            src1: find_source(*src1, copies),
        },
        OpOf::VMaxF32 { dst, src0, src1 } => OpOf::VMaxF32 {
            dst: *dst,
            src0: find_source(*src0, copies),
            src1: find_source(*src1, copies),
        },
        OpOf::VMinF32 { dst, src0, src1 } => OpOf::VMinF32 {
            dst: *dst,
            src0: find_source(*src0, copies),
            src1: find_source(*src1, copies),
        },
        OpOf::VMinU32 { dst, src0, src1 } => OpOf::VMinU32 {
            dst: *dst,
            src0: find_source(*src0, copies),
            src1: find_source(*src1, copies),
        },
        OpOf::VAddU32 { dst, src0, src1 } => OpOf::VAddU32 {
            dst: *dst,
            src0: find_source(*src0, copies),
            src1: find_source(*src1, copies),
        },
        OpOf::VSubU32 { dst, src0, src1 } => OpOf::VSubU32 {
            dst: *dst,
            src0: find_source(*src0, copies),
            src1: find_source(*src1, copies),
        },
        OpOf::VAndB32 { dst, src0, src1 } => OpOf::VAndB32 {
            dst: *dst,
            src0: find_source(*src0, copies),
            src1: find_source(*src1, copies),
        },
        OpOf::VOrB32 { dst, src0, src1 } => OpOf::VOrB32 {
            dst: *dst,
            src0: find_source(*src0, copies),
            src1: find_source(*src1, copies),
        },
        OpOf::VXorB32 { dst, src0, src1 } => OpOf::VXorB32 {
            dst: *dst,
            src0: find_source(*src0, copies),
            src1: find_source(*src1, copies),
        },
        OpOf::VFmaF32 { dst, src0, src1, src2 } => OpOf::VFmaF32 {
            dst: *dst,
            src0: find_source(*src0, copies),
            src1: find_source(*src1, copies),
            src2: find_source(*src2, copies),
        },
        OpOf::VMov { dst, src } => OpOf::VMov {
            dst: *dst,
            src: find_source(*src, copies),
        },
        OpOf::VCmpLtU32 { src0, src1 } => OpOf::VCmpLtU32 {
            src0: find_source(*src0, copies),
            src1: find_source(*src1, copies),
        },
        OpOf::VCmpGeU32 { src0, src1 } => OpOf::VCmpGeU32 {
            src0: find_source(*src0, copies),
            src1: find_source(*src1, copies),
        },
        OpOf::VCmpGtU32 { src0, src1 } => OpOf::VCmpGtU32 {
            src0: find_source(*src0, copies),
            src1: find_source(*src1, copies),
        },
        OpOf::VCmpEqU32 { src0, src1 } => OpOf::VCmpEqU32 {
            src0: find_source(*src0, copies),
            src1: find_source(*src1, copies),
        },
        OpOf::VCmpEqF32 { src0, src1 } => OpOf::VCmpEqF32 {
            src0: find_source(*src0, copies),
            src1: find_source(*src1, copies),
        },
        OpOf::VCmpGtF32 { src0, src1 } => OpOf::VCmpGtF32 {
            src0: find_source(*src0, copies),
            src1: find_source(*src1, copies),
        },
        OpOf::VCmpLtF32 { src0, src1 } => OpOf::VCmpLtF32 {
            src0: find_source(*src0, copies),
            src1: find_source(*src1, copies),
        },
        OpOf::VCmpGeF32 { src0, src1 } => OpOf::VCmpGeF32 {
            src0: find_source(*src0, copies),
            src1: find_source(*src1, copies),
        },
        OpOf::VCndmaskB32 { dst, src_false, src_true } => OpOf::VCndmaskB32 {
            dst: *dst,
            src_false: find_source(*src_false, copies),
            src_true: find_source(*src_true, copies),
        },
        other => other.clone(),
    }
}

/// Whether an operand of an operation is a copy.
fn check_reads_copy(op: &Op, copies: &Vec<Copied>) -> (r: bool)
    ensures
        r == reads_copy(*op, copies@),
{
    match op {
        OpOf::VAddF32 { src0, src1, .. } => find_source(*src0, copies) != *src0
            || find_source(*src1, copies) != *src1,
        OpOf::VMulF32 { src0, src1, .. } => find_source(*src0, copies) != *src0
            || find_source(*src1, copies) != *src1,
        OpOf::VSubF32 { src0, src1, .. } => find_source(*src0, copies) != *src0
            || find_source(*src1, copies) != *src1,
        OpOf::VMaxF32 { src0, src1, .. } => find_source(*src0, copies) != *src0
            || find_source(*src1, copies) != *src1,
        OpOf::VMinF32 { src0, src1, .. } => find_source(*src0, copies) != *src0
            || find_source(*src1, copies) != *src1,
        OpOf::VMinU32 { src0, src1, .. } => find_source(*src0, copies) != *src0
            || find_source(*src1, copies) != *src1,
        OpOf::VAddU32 { src0, src1, .. } => find_source(*src0, copies) != *src0
            || find_source(*src1, copies) != *src1,
        OpOf::VSubU32 { src0, src1, .. } => find_source(*src0, copies) != *src0
            || find_source(*src1, copies) != *src1,
        OpOf::VAndB32 { src0, src1, .. } => find_source(*src0, copies) != *src0
            || find_source(*src1, copies) != *src1,
        OpOf::VOrB32 { src0, src1, .. } => find_source(*src0, copies) != *src0
            || find_source(*src1, copies) != *src1,
        OpOf::VXorB32 { src0, src1, .. } => find_source(*src0, copies) != *src0
            || find_source(*src1, copies) != *src1,
        OpOf::VFmaF32 { src0, src1, src2, .. } => find_source(*src0, copies) != *src0
            || find_source(*src1, copies) != *src1
            || find_source(*src2, copies) != *src2,
        OpOf::VMov { src, .. } => find_source(*src, copies) != *src,
        OpOf::VCmpLtU32 { src0, src1 } => find_source(*src0, copies) != *src0
            || find_source(*src1, copies) != *src1,
        OpOf::VCmpGeU32 { src0, src1 } => find_source(*src0, copies) != *src0
            || find_source(*src1, copies) != *src1,
        OpOf::VCmpGtU32 { src0, src1 } => find_source(*src0, copies) != *src0
            || find_source(*src1, copies) != *src1,
        OpOf::VCmpEqU32 { src0, src1 } => find_source(*src0, copies) != *src0
            || find_source(*src1, copies) != *src1,
        OpOf::VCmpEqF32 { src0, src1 } => find_source(*src0, copies) != *src0
            || find_source(*src1, copies) != *src1,
        OpOf::VCmpGtF32 { src0, src1 } => find_source(*src0, copies) != *src0
            || find_source(*src1, copies) != *src1,
        OpOf::VCmpLtF32 { src0, src1 } => find_source(*src0, copies) != *src0
            || find_source(*src1, copies) != *src1,
        OpOf::VCmpGeF32 { src0, src1 } => find_source(*src0, copies) != *src0
            || find_source(*src1, copies) != *src1,
        OpOf::VCndmaskB32 { src_false, src_true, .. } => {
            find_source(*src_false, copies) != *src_false || find_source(*src_true, copies)
                != *src_true
        },
        _ => false,
    }
}

/// Whether a list of registers holds one.
fn holds_reg(regs: &Vec<VReg>, v: VReg) -> (r: bool)
    ensures
        r == regs@.contains(v),
{
    let mut i: usize = 0;
    while i < regs.len()
        invariant
            i <= regs.len(),
            forall|k: int| 0 <= k < i ==> #[trigger] regs@[k] != v,
        decreases regs.len() - i,
    {
        if regs[i] == v {
            assert(regs@[i as int] == v);
            return true;
        }
        i = i + 1;
    }
    false
}

/// Brings the copies up to date behind an operation.
fn advance_copies(copies: &Vec<Copied>, op: &Op, groups: &[CoalescedGroup]) -> (r: Vec<Copied>)
    ensures
        r@ == copies_behind(copies@, *op, groups@),
{
    let mut out: Vec<Copied> = Vec::new();
    if matches!(op, OpOf::Label(_) | OpOf::SaveExec { .. } | OpOf::RestoreExec { .. }
        | OpOf::XorExec { .. } | OpOf::RawAsm(_)) {
        assert(out@ =~= Seq::empty());
        return out;
    }
    let defs = op.vreg_defs();
    let mut i: usize = 0;
    assert(copies@.take(0) =~= Seq::empty());
    while i < copies.len()
        invariant
            i <= copies.len(),
            defs@ == op_vreg_defs(*op),
            out@ == still_copies(copies@.take(i as int), *op),
        decreases copies.len() - i,
    {
        let c: Copied = copies[i];
        let gone: bool = holds_reg(&defs, c.0) || holds_reg(&defs, c.1);
        assert(gone == (writes_vreg(*op, c.0.0) || writes_vreg(*op, c.1.0))) by {
            assert(VReg(c.0.0) == c.0 && VReg(c.1.0) == c.1);
        }
        if !gone {
            out.push(c);
        }
        i = i + 1;
        assert(copies@.take(i as int).drop_last() =~= copies@.take(i - 1));
        assert(copies@.take(i as int).last() == c);
    }
    assert(copies@.take(i as int) =~= copies@);
    match op {
        OpOf::VMov { dst, src: Operand::VReg(v) } => {
            if *v != *dst && !check_names_group(op, groups) {
                out.push((*dst, *v));
            }
        },
        _ => {},
    }
    out
}

/// Propagates copies. Returns the operations and how many of them read another register.
pub fn propagate_copies(ops: Vec<Op>, groups: &[CoalescedGroup]) -> (r: (Vec<Op>, usize))
    ensures
        r.0@ == propagated(ops@, groups@),
        r.1 == propagated_count(ops@, ops@.len() as int, groups@),
{
    let mut out: Vec<Op> = Vec::new();
    let mut copies: Vec<Copied> = Vec::new();
    let mut count: usize = 0;
    let mut i: usize = 0;
    assert(copies@ =~= copies_at(ops@, 0, groups@));
    while i < ops.len()
        invariant
            i <= ops.len(),
            out@ == propagated(ops@, groups@).take(i as int),
            copies@ == copies_at(ops@, i as int, groups@),
            count == propagated_count(ops@, i as int, groups@),
            count <= i,
        decreases ops.len() - i,
    {
        let op: Op = if check_names_group(&ops[i], groups) {
            ops[i].clone()
        } else {
            if check_reads_copy(&ops[i], &copies) {
                count = count + 1;
            }
            propagate_op(&ops[i], &copies)
        };
        assert(op == propagated(ops@, groups@)[i as int]);
        copies = advance_copies(&copies, &op, groups);
        out.push(op);
        i = i + 1;
        assert(propagated(ops@, groups@).take(i as int) =~= propagated(ops@, groups@).take(
            i - 1,
        ).push(op));
    }
    assert(out@ =~= propagated(ops@, groups@));
    (out, count)
}

/// Whether every copy holds what the register holds that it was moved from.
pub open spec fn copies_hold(copies: Seq<Copied>, regs: spec_fn(u32) -> u32) -> bool {
    forall|k: int| 0 <= k < copies.len() ==> regs((#[trigger] copies[k]).0.0) == regs(copies[k].1.0)
}

/// A propagated operand is worth what it was worth, where copies hold what they copied.
pub proof fn propagated_values_are_right(
    o: Operand,
    copies: Seq<Copied>,
    regs: spec_fn(u32) -> u32,
)
    requires
        copies_hold(copies, regs),
    ensures
        operand_value(source_of(o, copies), regs) == operand_value(o, regs),
    decreases copies.len(),
{
    match o {
        Operand::VReg(v) => {
            if copies.len() > 0 {
                let init = copies.drop_last();
                assert forall|k: int| 0 <= k < init.len() implies regs((#[trigger] init[k]).0.0)
                    == regs(init[k].1.0) by {
                    assert(init[k] == copies[k]);
                }
                propagated_values_are_right(o, init, regs);
                assert(copies.last() == copies[copies.len() - 1]);
            }
        },
        _ => {},
    }
}

proof fn lemma_still_copies(
    copies: Seq<Copied>,
    op: Op,
    regs: spec_fn(u32) -> u32,
    after: spec_fn(u32) -> u32,
)
    requires
        copies_hold(copies, regs),
        forall|id: u32| !writes_vreg(op, id) ==> #[trigger] after(id) == regs(id),
    ensures
        copies_hold(still_copies(copies, op), after),
    decreases copies.len(),
{
    if copies.len() > 0 {
        let init = copies.drop_last();
        let c = copies.last();
        assert forall|k: int| 0 <= k < init.len() implies regs((#[trigger] init[k]).0.0) == regs(
            init[k].1.0,
        ) by {
            assert(init[k] == copies[k]);
        }
        lemma_still_copies(init, op, regs, after);
        let rest = still_copies(init, op);
        if !(writes_vreg(op, c.0.0) || writes_vreg(op, c.1.0)) {
            assert(c == copies[copies.len() - 1]);
            assert(after(c.0.0) == regs(c.0.0) && after(c.1.0) == regs(c.1.0));
            let all = rest.push(c);
            assert forall|k: int| 0 <= k < all.len() implies after((#[trigger] all[k]).0.0)
                == after(all[k].1.0) by {
                if k < rest.len() {
                    assert(all[k] == rest[k]);
                }
            }
        }
    }
}

/// Copies stay right: if they hold what they copied, and an operation changes only registers
/// that it writes, and puts the value of its source there if it is a move, they hold it behind
/// the operation.
pub proof fn copies_stay_right(
    copies: Seq<Copied>,
    op: Op,
    groups: Seq<CoalescedGroup>,
    regs: spec_fn(u32) -> u32,
    after: spec_fn(u32) -> u32,
)
    requires
        copies_hold(copies, regs),
        forall|id: u32| !writes_vreg(op, id) ==> #[trigger] after(id) == regs(id),
        op matches OpOf::VMov { dst, src } ==> after(dst.0) == operand_value(src, regs),
    ensures
        copies_hold(copies_behind(copies, op, groups), after),
{
    lemma_still_copies(copies, op, regs, after);
    let rest = still_copies(copies, op);
    match op {
        OpOf::VMov { dst, src: Operand::VReg(v) } => {
            if v != dst {
                assert(op_vreg_defs(op) =~= seq![dst]);
                assert(!writes_vreg(op, v.0));
                assert(after(v.0) == regs(v.0));
                let all = rest.push((dst, v));
                assert forall|k: int| 0 <= k < all.len() implies after((#[trigger] all[k]).0.0)
                    == after(all[k].1.0) by {
                    if k < rest.len() {
                        assert(all[k] == rest[k]);
                    }
                }
            }
        },
        _ => {},
    }
}

/// Both passes keep every operation in its place, with its destination, and leave condition
/// codes and scalar registers alone.
pub proof fn simplification_keeps_destinations(
    ops: Seq<Op>,
    groups: Seq<CoalescedGroup>,
    i: int,
)
    requires
        0 <= i < ops.len(),
    ensures
        simplified(ops).len() == ops.len(),
        propagated(ops, groups).len() == ops.len(),
        op_vreg_defs(simplified(ops)[i]) == op_vreg_defs(ops[i]),
        op_vreg_defs(propagated(ops, groups)[i]) == op_vreg_defs(ops[i]),
        op_sreg_defs(simplified(ops)[i]) == op_sreg_defs(ops[i]),
        op_sreg_defs(propagated(ops, groups)[i]) == op_sreg_defs(ops[i]),
        op_writes_vcc(simplified(ops)[i]) == op_writes_vcc(ops[i]),
        op_writes_vcc(propagated(ops, groups)[i]) == op_writes_vcc(ops[i]),
        op_writes_scc(simplified(ops)[i]) == op_writes_scc(ops[i]),
        op_writes_scc(propagated(ops, groups)[i]) == op_writes_scc(ops[i]),
        op_has_side_effects(simplified(ops)[i]) == op_has_side_effects(ops[i]),
        op_has_side_effects(propagated(ops, groups)[i]) == op_has_side_effects(ops[i]),
{
}

/// Copy propagation leaves what names a register of a group alone.
pub proof fn propagation_skips_groups(ops: Seq<Op>, groups: Seq<CoalescedGroup>, i: int)
    requires
        0 <= i < ops.len(),
        names_group(ops[i], groups),
    ensures
        propagated(ops, groups)[i] == ops[i],
{
}

} // verus!
