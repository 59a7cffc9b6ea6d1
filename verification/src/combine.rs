//! Instruction combining: an addition of a product becomes a fused multiply-add of the
//! product's factors. The multiplication stays where it is, and goes with the dead operations
//! if nothing else reads it.
use vstd::prelude::*;

use crate::ir::{
    Op, OpOf, Operand, VReg, op_has_side_effects, op_sreg_defs, op_vreg_defs, op_writes_scc,
    op_writes_vcc,
};
use crate::subexpr::{Held, advance, held_behind, holds, value_of};

verus! {

/// The number of the kind of multiplications.
pub const PRODUCT: u32 = 3;

/// The factors of the product that a register holds, if it holds one.
pub open spec fn factors(held: Seq<Held>, o: Operand) -> Option<(Operand, Operand)>
    decreases held.len(),
{
    if held.len() == 0 {
        None
    } else {
        let h = held.last();
        if h.1 == PRODUCT && o == Operand::VReg(h.0) {
            Some((h.2, h.3))
        } else {
            factors(held.drop_last(), o)
        }
    }
}

/// The fused form of an addition of a product: its destination, the factors and the other
/// summand.
pub open spec fn fused(op: Op, held: Seq<Held>) -> Option<(VReg, Operand, Operand, Operand)> {
    match op {
        OpOf::VAddF32 { dst, src0, src1 } => match factors(held, src0) {
            Some((a, b)) => Some((dst, a, b, src1)),
            None => match factors(held, src1) {
                Some((a, b)) => Some((dst, a, b, src0)),
                None => None,
            },
        },
        _ => None,
    }
}

/// An operation in its fused form, if it has one.
pub open spec fn combined_op(op: Op, held: Seq<Held>) -> Op {
    match fused(op, held) {
        Some((dst, a, b, c)) => OpOf::VFmaF32 { dst, src0: a, src1: b, src2: c },
        None => op,
    }
}

/// What registers hold behind the first `n` operations.
pub open spec fn products_at(ops: Seq<Op>, n: int) -> Seq<Held>
    decreases n,
{
    if n <= 0 {
        Seq::empty()
    } else {
        let before = products_at(ops, n - 1);
        held_behind(before, combined_op(ops[n - 1], before))
    }
}

/// The operations with additions of products fused.
pub open spec fn combined(ops: Seq<Op>) -> Seq<Op> {
    Seq::new(ops.len(), |i: int| combined_op(ops[i], products_at(ops, i)))
}

/// How many of the first `n` operations are fused.
pub open spec fn combined_count(ops: Seq<Op>, n: int) -> nat
    decreases n,
{
    if n <= 0 {
        0
    } else {
        combined_count(ops, n - 1) + if fused(ops[n - 1], products_at(ops, n - 1)) is Some {
            1nat
        } else {
            0
        }
    }
}

/// The factors of the product that a register holds, if it holds one.
fn find_factors(held: &Vec<Held>, o: Operand) -> (r: Option<(Operand, Operand)>)
    ensures
        r == factors(held@, o),
{
    let mut i: usize = held.len();
    assert(held@.take(i as int) =~= held@);
    while i > 0
        invariant
            i <= held.len(),
            factors(held@, o) == factors(held@.take(i as int), o),
        decreases i,
    {
        let ghost part = held@.take(i as int);
        assert(part.last() == held@[i - 1]);
        assert(part.drop_last() =~= held@.take(i - 1));
        let h: Held = held[i - 1];
        if h.1 == PRODUCT && o == Operand::VReg(h.0) {
            return Some((h.2, h.3));
        }
        i = i - 1;
    }
    None
}

/// Fuses additions of products. Returns the operations and how many of them were fused.
pub fn combine(ops: Vec<Op>) -> (r: (Vec<Op>, usize))
    ensures
        r.0@ == combined(ops@),
        r.1 == combined_count(ops@, ops@.len() as int),
{
    let mut out: Vec<Op> = Vec::new();
    let mut held: Vec<Held> = Vec::new();
    let mut count: usize = 0;
    let mut i: usize = 0;
    assert(held@ =~= products_at(ops@, 0));
    while i < ops.len()
        invariant
            i <= ops.len(),
            out@ == combined(ops@).take(i as int),
            held@ == products_at(ops@, i as int),
            count == combined_count(ops@, i as int),
            count <= i,
        decreases ops.len() - i,
    {
        let form: Option<(VReg, Operand, Operand, Operand)> = match &ops[i] {
            OpOf::VAddF32 { dst, src0, src1 } => match find_factors(&held, *src0) {
                Some((a, b)) => Some((*dst, a, b, *src1)),
                None => match find_factors(&held, *src1) {
                    Some((a, b)) => Some((*dst, a, b, *src0)),
                    None => None,
                },
            },
            _ => None,
        };
        let op: Op = match form {
            Some((dst, a, b, c)) => {
                count = count + 1;
                OpOf::VFmaF32 { dst, src0: a, src1: b, src2: c }
            },
            None => ops[i].clone(),
        };
        assert(op == combined(ops@)[i as int]);
        held = advance(&held, &op);
        out.push(op);
        i = i + 1;
        assert(combined(ops@).take(i as int) =~= combined(ops@).take(i - 1).push(op));
    }
    assert(out@ =~= combined(ops@));
    (out, count)
}

proof fn lemma_factors(
    held: Seq<Held>,
    o: Operand,
    regs: spec_fn(u32) -> u32,
    f: spec_fn(u32, u32, u32) -> u32,
)
    requires
        holds(held, regs, f),
    ensures
        factors(held, o) matches Some((a, b)) ==> value_of(o, regs) == f(
            PRODUCT,
            value_of(a, regs),
            value_of(b, regs),
        ),
    decreases held.len(),
{
    if held.len() > 0 {
        let init = held.drop_last();
        assert forall|k: int| 0 <= k < init.len() implies regs((#[trigger] init[k]).0.0) == f(
            init[k].1,
            value_of(init[k].2, regs),
            value_of(init[k].3, regs),
        ) by {
            assert(init[k] == held[k]);
        }
        lemma_factors(init, o, regs, f);
        assert(held.last() == held[held.len() - 1]);
    }
}

/// A fused operation adds what the addition added: whatever the kinds of operations compute
/// of their sources, where registers hold what they are held to, one summand of the addition
/// is the product of the two factors, and the other is the third source.
pub proof fn fused_values_are_right(
    op: Op,
    held: Seq<Held>,
    regs: spec_fn(u32) -> u32,
    f: spec_fn(u32, u32, u32) -> u32,
)
    requires
        holds(held, regs, f),
        fused(op, held) is Some,
    ensures
        ({
            let (to, a, b, c) = fused(op, held)->0;
            let product = f(PRODUCT, value_of(a, regs), value_of(b, regs));
            let sum = value_of(c, regs);
            &&& op matches OpOf::VAddF32 { dst, src0, src1 } && to == dst && ((value_of(src0, regs)
                == product && value_of(src1, regs) == sum) || (value_of(src0, regs) == sum
                && value_of(src1, regs) == product))
        }),
{
    match op {
        OpOf::VAddF32 { dst, src0, src1 } => {
            lemma_factors(held, src0, regs, f);
            lemma_factors(held, src1, regs, f);
        },
        _ => {},
    }
}

/// Combining keeps every operation in its place, with its destination; what changes leaves
/// condition codes and scalar registers alone.
pub proof fn combining_keeps_destinations(ops: Seq<Op>, i: int)
    requires
        0 <= i < ops.len(),
    ensures
        combined(ops).len() == ops.len(),
        op_vreg_defs(combined(ops)[i]) == op_vreg_defs(ops[i]),
        op_sreg_defs(combined(ops)[i]) == op_sreg_defs(ops[i]),
        op_writes_vcc(combined(ops)[i]) == op_writes_vcc(ops[i]),
        op_writes_scc(combined(ops)[i]) == op_writes_scc(ops[i]),
        op_has_side_effects(combined(ops)[i]) == op_has_side_effects(ops[i]),
{
}

} // verus!
