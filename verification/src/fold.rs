//! Constant folding and removal of dead operations.
//!
//! Folding follows the constants that moves put into vector registers and replaces an
//! operation on such constants by a move of its result. It forgets what it knows at
//! labels, where other paths join, and where it changes which lanes take part. Sums,
//! differences and products of floats are folded where they are whole numbers that a float
//! holds exactly.
use std::collections::{HashMap, HashSet};

use vstd::arithmetic::power2::{lemma_pow2_adds, lemma_pow2_pos, lemma2_to64, pow2};
use vstd::prelude::*;

use crate::compile::CoalescedGroup;
use crate::ir::{
    Op, OpOf, Operand, VReg, op_has_side_effects, op_sreg_defs, op_vreg_defs, op_vreg_refs,
    op_vreg_uses, op_writes_scc, op_writes_vcc,
};
use crate::latency_model::{latency_of, op_latency};
use crate::opt_passes::{hides_lanes, insert_regs, reads_vreg, writes_vreg};

verus! {

broadcast use vstd::std_specs::hash::group_hash_axioms;

// ── Whole numbers as floats ──
/// The whole numbers below this have exact floats, and so have their sums and products
/// below it.
pub const WHOLE_END: u32 = 0x100_0000;

/// The exponent of the largest power of two that is not more than `n`.
pub open spec fn exponent(n: nat) -> nat
    decreases n,
{
    if n <= 1 {
        0
    } else {
        1 + exponent(n / 2)
    }
}

/// The bits of the float of a whole number.
pub open spec fn float_of(n: nat) -> nat {
    if n == 0 {
        0
    } else {
        let e = exponent(n);
        (127 + e) * 0x80_0000 + ((n - pow2(e)) * pow2((23 - e) as nat)) as nat
    }
}

/// The whole number that a float is, if it is one below the limit.
pub open spec fn whole(bits: u32) -> Option<nat> {
    let b = bits as nat / 0x80_0000;
    let m = bits as nat % 0x80_0000;
    if bits == 0 {
        Some(0)
    } else if 127 <= b <= 150 && m % pow2((150 - b) as nat) == 0 {
        Some(pow2((b - 127) as nat) + m / pow2((150 - b) as nat))
    } else {
        None
    }
}

proof fn lemma_exponent(n: nat)
    requires
        n > 0,
    ensures
        pow2(exponent(n)) <= n < 2 * pow2(exponent(n)),
    decreases n,
{
    lemma2_to64();
    if n > 1 {
        lemma_exponent(n / 2);
        lemma_pow2_adds(1, exponent(n / 2));
    }
}

proof fn lemma_exponent_small(n: nat)
    requires
        0 < n < WHOLE_END,
    ensures
        exponent(n) <= 23,
        pow2(exponent(n)) * pow2((23 - exponent(n)) as nat) == 0x80_0000,
{
    lemma_exponent(n);
    lemma2_to64();
    let e = exponent(n);
    if e >= 24 {
        lemma_pow2_adds(24, (e - 24) as nat);
        lemma_pow2_pos((e - 24) as nat);
        assert(pow2(24) * pow2((e - 24) as nat) >= pow2(24)) by (nonlinear_arith)
            requires
                pow2((e - 24) as nat) >= 1,
                pow2(24) >= 0,
        ;
    }
    lemma_pow2_adds(e, (23 - e) as nat);
}

/// The fraction of the float of a whole number fits.
proof fn lemma_fraction(n: nat)
    requires
        0 < n < WHOLE_END,
    ensures
        0 <= (n - pow2(exponent(n))) * pow2((23 - exponent(n)) as nat) < 0x80_0000,
{
    lemma_exponent(n);
    lemma_exponent_small(n);
    let e = exponent(n);
    let d = n - pow2(e);
    let q = pow2((23 - e) as nat);
    lemma_pow2_pos((23 - e) as nat);
    assert(0 <= d * q < pow2(e) * q) by (nonlinear_arith)
        requires
            0 <= d < pow2(e),
            q > 0,
    ;
}

/// A whole number is found again in its float.
pub proof fn floats_hold_whole_numbers(n: nat)
    requires
        n < WHOLE_END,
    ensures
        float_of(n) <= u32::MAX,
        whole(float_of(n) as u32) == Some(n),
{
    if n > 0 {
        lemma_exponent(n);
        lemma_exponent_small(n);
        lemma_fraction(n);
        let e = exponent(n);
        let d = n - pow2(e);
        let q = pow2((23 - e) as nat);
        let f = (d * q) as nat;
        lemma_pow2_pos((23 - e) as nat);
        let bits = float_of(n) as u32;
        assert(bits == (127 + e) * 0x80_0000 + f);
        assert(bits as nat / 0x80_0000 == 127 + e && bits as nat % 0x80_0000 == f);
        vstd::arithmetic::div_mod::lemma_mod_multiples_basic(d, q as int);
        vstd::arithmetic::div_mod::lemma_div_by_multiple(d, q as int);
    }
}

/// Two to the power of `e`.
fn power(e: u32) -> (r: u32)
    requires
        e <= 23,
    ensures
        r == pow2(e as nat),
        0 < r <= 0x80_0000,
{
    proof {
        lemma2_to64();
    }
    let mut r: u32 = 1;
    let mut i: u32 = 0;
    while i < e
        invariant
            i <= e <= 23,
            r == pow2(i as nat),
            r <= 0x80_0000,
        decreases e - i,
    {
        proof {
            lemma2_to64();
            lemma_pow2_adds(1, i as nat);
            lemma_pow2_adds((i + 1) as nat, (23 - i - 1) as nat);
            lemma_pow2_pos((23 - i - 1) as nat);
            assert(2 * r <= 2 * r * pow2((23 - i - 1) as nat)) by (nonlinear_arith)
                requires
                    pow2((23 - i - 1) as nat) >= 1,
                    r >= 0,
            ;
        }
        r = 2 * r;
        i = i + 1;
    }
    proof {
        lemma_pow2_pos(e as nat);
        lemma_pow2_adds(e as nat, (23 - e) as nat);
        lemma_pow2_pos((23 - e) as nat);
    }
    r
}

/// The exponent of the largest power of two that is not more than `n`.
fn exponent_of(n: u32) -> (r: u32)
    ensures
        r == exponent(n as nat),
        r <= n,
    decreases n,
{
    if n <= 1 {
        0
    } else {
        1 + exponent_of(n / 2)
    }
}

/// The bits of the float of a whole number.
fn encode_whole(n: u32) -> (r: u32)
    requires
        n < WHOLE_END,
    ensures
        r == float_of(n as nat),
{
    if n == 0 {
        return 0;
    }
    proof {
        lemma_exponent(n as nat);
        lemma_exponent_small(n as nat);
        lemma_fraction(n as nat);
    }
    let e: u32 = exponent_of(n);
    let p: u32 = power(e);
    let q: u32 = power(23 - e);
    (127 + e) * 0x80_0000 + (n - p) * q
}

/// The whole number that a float is, if it is one below the limit.
fn decode_whole(bits: u32) -> (r: Option<u32>)
    ensures
        match r {
            Some(n) => whole(bits) == Some(n as nat) && n < WHOLE_END,
            None => whole(bits) is None,
        },
{
    if bits == 0 {
        return Some(0);
    }
    let b: u32 = bits / 0x80_0000;
    let m: u32 = bits % 0x80_0000;
    if b < 127 || b > 150 {
        return None;
    }
    let q: u32 = power(150 - b);
    if m % q != 0 {
        return None;
    }
    let p: u32 = power(b - 127);
    proof {
        lemma2_to64();
        lemma_pow2_adds((b - 127) as nat, (150 - b) as nat);
        vstd::arithmetic::div_mod::lemma_fundamental_div_mod(m as int, q as int);
        let d = m as int / q as int;
        assert(d < p) by (nonlinear_arith)
            requires
                q * d <= m,
                m < p * q,
                q > 0,
        ;
        if p > 0x40_0000 {
            assert(p == 0x80_0000);
        }
    }
    Some(p + m / q)
}

// ── Constants ──
/// What is known of the vector registers: the bits that some of them hold in every lane that
/// takes part.
pub type Known = Map<u32, u32>;

/// The bits of an operand, if they are known.
pub open spec fn const_of(o: Operand, known: Known) -> Option<u32> {
    match o {
        Operand::VReg(v) => if known.contains_key(v.0) {
            Some(known[v.0])
        } else {
            None
        },
        Operand::InlineInt(n) => Some(n as u32),
        Operand::InlineFloat(bits) => Some(bits),
        Operand::Literal(bits) => Some(bits),
    }
}

/// The bits of an integer as an operand.
pub open spec fn int_operand(bits: u32) -> Operand {
    if bits <= 64 {
        Operand::InlineInt(bits as i32)
    } else {
        Operand::Literal(bits)
    }
}

/// The float of a whole number as an operand, if it has an exact one.
pub open spec fn whole_operand(n: int) -> Option<Operand> {
    if 0 <= n < WHOLE_END {
        Some(Operand::InlineFloat(float_of(n as nat) as u32))
    } else {
        None
    }
}

/// The result of an integer operation on two constants.
pub open spec fn int_result(op: Op, a: u32, b: u32) -> Option<u32> {
    match op {
        OpOf::VAddU32 { .. } => Some(a.wrapping_add(b)),
        OpOf::VSubU32 { .. } => Some(a.wrapping_sub(b)),
        OpOf::VMinU32 { .. } => Some(
            if a <= b {
                a
            } else {
                b
            },
        ),
        OpOf::VAndB32 { .. } => Some(a & b),
        OpOf::VOrB32 { .. } => Some(a | b),
        OpOf::VXorB32 { .. } => Some(a ^ b),
        OpOf::VMulLoU32 { .. } => Some(a.wrapping_mul(b)),
        _ => None,
    }
}

/// The result of a float operation on two whole numbers.
pub open spec fn float_result(op: Op, a: nat, b: nat) -> Option<int> {
    match op {
        OpOf::VAddF32 { .. } => Some((a + b) as int),
        OpOf::VSubF32 { .. } => Some(a - b),
        OpOf::VMulF32 { .. } => Some((a * b) as int),
        OpOf::VMaxF32 { .. } => Some(
            if a >= b {
                a as int
            } else {
                b as int
            },
        ),
        OpOf::VMinF32 { .. } => Some(
            if a <= b {
                a as int
            } else {
                b as int
            },
        ),
        _ => None,
    }
}

/// The destination and the two sources of an operation that can be folded.
pub open spec fn sources(op: Op) -> Option<(VReg, Operand, Operand)> {
    match op {
        OpOf::VAddF32 { dst, src0, src1 } => Some((dst, src0, src1)),
        OpOf::VSubF32 { dst, src0, src1 } => Some((dst, src0, src1)),
        OpOf::VMulF32 { dst, src0, src1 } => Some((dst, src0, src1)),
        OpOf::VMaxF32 { dst, src0, src1 } => Some((dst, src0, src1)),
        OpOf::VMinF32 { dst, src0, src1 } => Some((dst, src0, src1)),
        OpOf::VMinU32 { dst, src0, src1 } => Some((dst, src0, src1)),
        OpOf::VAddU32 { dst, src0, src1 } => Some((dst, src0, src1)),
        OpOf::VSubU32 { dst, src0, src1 } => Some((dst, src0, src1)),
        OpOf::VAndB32 { dst, src0, src1 } => Some((dst, src0, src1)),
        OpOf::VOrB32 { dst, src0, src1 } => Some((dst, src0, src1)),
        OpOf::VXorB32 { dst, src0, src1 } => Some((dst, src0, src1)),
        OpOf::VMulLoU32 { dst, src0, src1 } => Some(
            (dst, Operand::VReg(src0), Operand::VReg(src1)),
        ),
        _ => None,
    }
}

/// The constant that an operation on constants puts into its destination.
pub open spec fn result_operand(op: Op, a: u32, b: u32) -> Option<Operand> {
    match int_result(op, a, b) {
        Some(bits) => Some(int_operand(bits)),
        None => match (whole(a), whole(b)) {
            (Some(m), Some(n)) => match float_result(op, m, n) {
                Some(r) => whole_operand(r),
                None => None,
            },
            _ => None,
        },
    }
}

/// The constant that an operation puts into its destination, if that is known.
pub open spec fn folded_operand(op: Op, known: Known) -> Option<(VReg, Operand)> {
    match sources(op) {
        Some((dst, src0, src1)) => match (const_of(src0, known), const_of(src1, known)) {
            (Some(a), Some(b)) => match result_operand(op, a, b) {
                Some(o) => Some((dst, o)),
                None => None,
            },
            _ => None,
        },
        None => None,
    }
}

/// An operation with its constant result in its place, if that is known.
pub open spec fn folded_op(op: Op, known: Known) -> Op {
    match folded_operand(op, known) {
        Some((dst, o)) => OpOf::VMov { dst, src: o },
        None => op,
    }
}

/// What is known behind an operation.
pub open spec fn learned(op: Op, known: Known) -> Known {
    if op is Label || hides_lanes(op) {
        Map::empty()
    } else {
        let rest = Map::new(
            |id: u32| known.contains_key(id) && !writes_vreg(op, id),
            |id: u32| known[id],
        );
        match op {
            OpOf::VMov { dst, src } => match const_of(src, known) {
                Some(bits) => rest.insert(dst.0, bits),
                None => rest,
            },
            _ => rest,
        }
    }
}

/// What is known behind the first `n` operations.
pub open spec fn known_at(ops: Seq<Op>, n: int) -> Known
    decreases n,
{
    if n <= 0 {
        Map::empty()
    } else {
        let before = known_at(ops, n - 1);
        learned(folded_op(ops[n - 1], before), before)
    }
}

/// The operations with constants folded.
pub open spec fn folded(ops: Seq<Op>) -> Seq<Op> {
    Seq::new(ops.len(), |i: int| folded_op(ops[i], known_at(ops, i)))
}

/// How many of the first `n` operations are folded.
pub open spec fn fold_count(ops: Seq<Op>, n: int) -> nat
    decreases n,
{
    if n <= 0 {
        0
    } else {
        fold_count(ops, n - 1) + if folded_operand(ops[n - 1], known_at(ops, n - 1)) is Some {
            1nat
        } else {
            0
        }
    }
}

/// The bits of an operand, if they are known.
pub(crate) fn operand_const(o: &Operand, known: &HashMap<u32, u32>) -> (r: Option<u32>)
    ensures
        r == const_of(*o, known@),
{
    match o {
        Operand::VReg(v) => match known.get(&v.0) {
            Some(bits) => Some(*bits),
            None => None,
        },
        Operand::InlineInt(n) => Some(*n as u32),
        Operand::InlineFloat(bits) => Some(*bits),
        Operand::Literal(bits) => Some(*bits),
    }
}

/// The destination and the two sources of an operation that can be folded.
pub(crate) fn op_sources(op: &Op) -> (r: Option<(VReg, Operand, Operand)>)
    ensures
        r == sources(*op),
{
    match op {
        OpOf::VAddF32 { dst, src0, src1 }
        | OpOf::VSubF32 { dst, src0, src1 }
        | OpOf::VMulF32 { dst, src0, src1 }
        | OpOf::VMaxF32 { dst, src0, src1 }
        | OpOf::VMinF32 { dst, src0, src1 }
        | OpOf::VMinU32 { dst, src0, src1 }
        | OpOf::VAddU32 { dst, src0, src1 }
        | OpOf::VSubU32 { dst, src0, src1 }
        | OpOf::VAndB32 { dst, src0, src1 }
        | OpOf::VOrB32 { dst, src0, src1 }
        | OpOf::VXorB32 { dst, src0, src1 } => Some((*dst, *src0, *src1)),
        OpOf::VMulLoU32 { dst, src0, src1 } => Some(
            (*dst, Operand::VReg(*src0), Operand::VReg(*src1)),
        ),
        _ => None,
    }
}

/// The result of an integer operation on two constants.
fn compute_int(op: &Op, a: u32, b: u32) -> (r: Option<u32>)
    ensures
        r == int_result(*op, a, b),
{
    match op {
        OpOf::VAddU32 { .. } => Some(a.wrapping_add(b)),
        OpOf::VSubU32 { .. } => Some(a.wrapping_sub(b)),
        OpOf::VMinU32 { .. } => Some(
            if a <= b {
                a
            } else {
                b
            },
        ),
        OpOf::VAndB32 { .. } => Some(a & b),
        OpOf::VOrB32 { .. } => Some(a | b),
        OpOf::VXorB32 { .. } => Some(a ^ b),
        OpOf::VMulLoU32 { .. } => Some(a.wrapping_mul(b)),
        _ => None,
    }
}

/// The float that an operation on two whole numbers gives, if it is an exact whole number.
fn compute_whole(op: &Op, a: u32, b: u32) -> (r: Option<Operand>)
    requires
        a < WHOLE_END,
        b < WHOLE_END,
    ensures
        r == match float_result(*op, a as nat, b as nat) {
            Some(n) => whole_operand(n),
            None => None,
        },
{
    let n: u64 = match op {
        OpOf::VAddF32 { .. } => a as u64 + b as u64,
        OpOf::VSubF32 { .. } => {
            if a < b {
                return None;
            }
            (a - b) as u64
        },
        OpOf::VMulF32 { .. } => {
            assert(0 <= a * b < 0x1_0000_0000_0000) by (nonlinear_arith)
                requires
                    a < 0x100_0000,
                    b < 0x100_0000,
            ;
            a as u64 * b as u64
        },
        OpOf::VMaxF32 { .. } => if a >= b {
            a as u64
        } else {
            b as u64
        },
        OpOf::VMinF32 { .. } => if a <= b {
            a as u64
        } else {
            b as u64
        },
        _ => {
            return None;
        },
    };
    if n < WHOLE_END as u64 {
        proof {
            floats_hold_whole_numbers(n as nat);
        }
        Some(Operand::InlineFloat(encode_whole(n as u32)))
    } else {
        None
    }
}

/// The constant that an operation puts into its destination, if that is known.
fn fold_operand(op: &Op, known: &HashMap<u32, u32>) -> (r: Option<(VReg, Operand)>)
    ensures
        r == folded_operand(*op, known@),
{
    match op_sources(op) {
        None => None,
        Some((dst, src0, src1)) => match (
            operand_const(&src0, known),
            operand_const(&src1, known),
        ) {
            (Some(a), Some(b)) => match compute_int(op, a, b) {
                Some(bits) => {
                    let o: Operand = if bits <= 64 {
                        Operand::InlineInt(bits as i32)
                    } else {
                        Operand::Literal(bits)
                    };
                    Some((dst, o))
                },
                None => match (decode_whole(a), decode_whole(b)) {
                    (Some(m), Some(n)) => match compute_whole(op, m, n) {
                        Some(o) => Some((dst, o)),
                        None => None,
                    },
                    _ => None,
                },
            },
            _ => None,
        },
    }
}

/// Brings what is known up to date behind an operation.
pub(crate) fn learn(op: &Op, known: &mut HashMap<u32, u32>)
    ensures
        final(known)@ == learned(*op, old(known)@),
{
    if matches!(op, OpOf::Label(_) | OpOf::SaveExec { .. } | OpOf::RestoreExec { .. }
        | OpOf::XorExec { .. } | OpOf::RawAsm(_)) {
        known.clear();
        assert(known@ =~= learned(*op, old(known)@));
        return;
    }
    let value: Option<(u32, u32)> = match op {
        OpOf::VMov { dst, src } => match operand_const(src, known) {
            Some(bits) => Some((dst.0, bits)),
            None => None,
        },
        _ => None,
    };
    let defs = op.vreg_defs();
    let mut k: usize = 0;
    while k < defs.len()
        invariant
            k <= defs.len(),
            forall|id: u32| #[trigger]
                known@.contains_key(id) <==> old(known)@.contains_key(id) && !defs@.take(
                    k as int,
                ).contains(VReg(id)),
            forall|id: u32| #[trigger] known@.contains_key(id) ==> known@[id] == old(known)@[id],
        decreases defs.len() - k,
    {
        let d: VReg = defs[k];
        known.remove(&d.0);
        k = k + 1;
        proof {
            let now = defs@.take(k as int);
            let was = defs@.take(k - 1);
            assert(now =~= was.push(d));
            assert forall|id: u32| #[trigger] known@.contains_key(id) <==> old(
                known,
            )@.contains_key(id) && !now.contains(VReg(id)) by {
                if id == d.0 {
                    assert(now.last() == VReg(id));
                }
                if was.contains(VReg(id)) {
                    let j = choose|j: int| 0 <= j < was.len() && #[trigger] was[j] == VReg(id);
                    assert(now[j] == VReg(id));
                }
            }
        }
    }
    assert(defs@.take(k as int) =~= defs@);
    match value {
        Some((dst, bits)) => {
            known.insert(dst, bits);
        },
        None => {},
    }
    assert(known@ =~= learned(*op, old(known)@));
}

/// Folds constants. Returns the operations and how many of them were folded.
pub fn fold_constants(ops: Vec<Op>) -> (r: (Vec<Op>, usize))
    ensures
        r.0@ == folded(ops@),
        r.1 == fold_count(ops@, ops@.len() as int),
{
    let mut out: Vec<Op> = Vec::new();
    let mut known: HashMap<u32, u32> = HashMap::new();
    let mut count: usize = 0;
    let mut i: usize = 0;
    assert(known@ =~= known_at(ops@, 0));
    while i < ops.len()
        invariant
            i <= ops.len(),
            out@ == folded(ops@).take(i as int),
            known@ == known_at(ops@, i as int),
            count == fold_count(ops@, i as int),
            count <= i,
        decreases ops.len() - i,
    {
        let op: Op = match fold_operand(&ops[i], &known) {
            Some((dst, o)) => {
                count = count + 1;
                OpOf::VMov { dst, src: o }
            },
            None => ops[i].clone(),
        };
        assert(op == folded(ops@)[i as int]);
        learn(&op, &mut known);
        out.push(op);
        i = i + 1;
        assert(folded(ops@).take(i as int) =~= folded(ops@).take(i - 1).push(op));
    }
    assert(out@ =~= folded(ops@));
    (out, count)
}

/// Folding keeps every operation in its place, with its destination: what changes is moved
/// to the same register and leaves condition codes and scalar registers alone.
pub proof fn folding_keeps_destinations(ops: Seq<Op>, i: int)
    requires
        0 <= i < ops.len(),
    ensures
        folded(ops).len() == ops.len(),
        op_vreg_defs(folded(ops)[i]) == op_vreg_defs(ops[i]),
        op_sreg_defs(folded(ops)[i]) == op_sreg_defs(ops[i]),
        op_writes_vcc(folded(ops)[i]) == op_writes_vcc(ops[i]),
        op_writes_scc(folded(ops)[i]) == op_writes_scc(ops[i]),
        op_has_side_effects(folded(ops)[i]) == op_has_side_effects(ops[i]),
        folded(ops)[i] == ops[i] || op_vreg_uses(folded(ops)[i]).len() == 0,
{
    let known = known_at(ops, i);
    match folded_operand(ops[i], known) {
        Some((dst, o)) => {
            assert(op_vreg_uses(folded(ops)[i]) =~= Seq::empty());
        },
        None => {},
    }
}

// ── Vector register values ──
/// What an operand is worth when the registers hold given bits.
pub open spec fn operand_value(o: Operand, regs: spec_fn(u32) -> u32) -> u32 {
    match o {
        Operand::VReg(v) => regs(v.0),
        Operand::InlineInt(n) => n as u32,
        Operand::InlineFloat(bits) => bits,
        Operand::Literal(bits) => bits,
    }
}

/// Whether registers hold what is known of them.
pub open spec fn agrees(known: Known, regs: spec_fn(u32) -> u32) -> bool {
    forall|id: u32| #[trigger] known.contains_key(id) ==> regs(id) == known[id]
}

/// What is known stays right: if registers hold what is known of them, and an operation
/// changes only registers that it writes, and puts the value of its source there if it is a
/// move, they hold what is known behind it.
pub proof fn known_stays_right(
    op: Op,
    known: Known,
    regs: spec_fn(u32) -> u32,
    after: spec_fn(u32) -> u32,
)
    requires
        agrees(known, regs),
        forall|id: u32| !writes_vreg(op, id) ==> #[trigger] after(id) == regs(id),
        op matches OpOf::VMov { dst, src } ==> after(dst.0) == operand_value(src, regs),
    ensures
        agrees(learned(op, known), after),
{
    let now = learned(op, known);
    assert forall|id: u32| #[trigger] now.contains_key(id) implies after(id) == now[id] by {
        match op {
            OpOf::VMov { dst, src } => {
                if id == dst.0 {
                    assert(op_vreg_defs(op)[0] == VReg(id));
                    assert(writes_vreg(op, id));
                    assert(const_of(src, known) is Some);
                    match src {
                        Operand::VReg(v) => {
                            assert(known.contains_key(v.0));
                        },
                        _ => {},
                    }
                } else {
                    assert(known.contains_key(id) && !writes_vreg(op, id));
                    assert(after(id) == regs(id));
                }
            },
            _ => {
                assert(known.contains_key(id) && !writes_vreg(op, id));
                assert(after(id) == regs(id));
            },
        }
    }
}

/// What is folded is what the operation computes: wherever the registers hold what is known
/// of them, a folded integer operation moves the result of that operation on its sources'
/// bits, and a folded float operation the float of the result on the whole numbers that its
/// sources hold.
pub proof fn folded_values_are_right(op: Op, known: Known, regs: spec_fn(u32) -> u32)
    requires
        agrees(known, regs),
        folded_operand(op, known) is Some,
    ensures
        ({
            let (dst, src0, src1) = sources(op)->0;
            let a = operand_value(src0, regs);
            let b = operand_value(src1, regs);
            let result = operand_value((folded_operand(op, known)->0).1, regs);
            &&& folded_op(op, known) == OpOf::<String>::VMov {
                dst,
                src: (folded_operand(op, known)->0).1,
            }
            &&& match int_result(op, a, b) {
                Some(bits) => result == bits,
                None => {
                    &&& whole(a) is Some
                    &&& whole(b) is Some
                    &&& whole(result) is Some
                    &&& float_result(op, whole(a)->0, whole(b)->0) == Some(
                        whole(result)->0 as int,
                    )
                },
            }
        }),
{
    let (dst, src0, src1) = sources(op)->0;
    let a = const_of(src0, known)->0;
    let b = const_of(src1, known)->0;
    match int_result(op, a, b) {
        Some(bits) => {
            if bits <= 64 {
                assert((bits as i32) as u32 == bits);
            }
        },
        None => {
            let n = float_result(op, whole(a)->0, whole(b)->0)->0;
            floats_hold_whole_numbers(n as nat);
        },
    }
}

// ── Registers that stay consecutive ──
/// Whether a register is one of a group that has to stay consecutive.
pub open spec fn in_group(groups: Seq<CoalescedGroup>, id: u32) -> bool {
    exists|k: int|
        0 <= k < groups.len() && (#[trigger] groups[k]).base_vreg.0 <= id < groups[k].base_vreg.0
            + groups[k].count
}

/// Whether an operation names a register of a group that has to stay consecutive.
pub open spec fn names_group(op: Op, groups: Seq<CoalescedGroup>) -> bool {
    exists|k: int|
        0 <= k < op_vreg_refs(op).len() && in_group(groups, (#[trigger] op_vreg_refs(op)[k]).0)
}

/// Whether a register is one of a group that has to stay consecutive.
pub(crate) fn check_in_group(groups: &[CoalescedGroup], id: u32) -> (r: bool)
    ensures
        r == in_group(groups@, id),
{
    let mut k: usize = 0;
    while k < groups.len()
        invariant
            k <= groups.len(),
            forall|j: int|
                0 <= j < k ==> !((#[trigger] groups@[j]).base_vreg.0 <= id
                    < groups@[j].base_vreg.0 + groups@[j].count),
        decreases groups.len() - k,
    {
        let first: u32 = groups[k].base_vreg.0;
        if first <= id && id - first < groups[k].count {
            assert(groups@[k as int].base_vreg.0 <= id < groups@[k as int].base_vreg.0
                + groups@[k as int].count);
            return true;
        }
        k = k + 1;
    }
    false
}

/// Whether an operation names a register of a group that has to stay consecutive.
pub(crate) fn check_names_group(op: &Op, groups: &[CoalescedGroup]) -> (r: bool)
    ensures
        r == names_group(*op, groups@),
{
    let refs = op.vreg_refs();
    let mut k: usize = 0;
    while k < refs.len()
        invariant
            k <= refs.len(),
            refs@ == op_vreg_refs(*op),
            forall|j: int| 0 <= j < k ==> !in_group(groups@, (#[trigger] refs@[j]).0),
        decreases refs.len() - k,
    {
        if check_in_group(groups, refs[k].0) {
            assert(in_group(groups@, refs@[k as int].0));
            return true;
        }
        k = k + 1;
    }
    false
}

// ── Dead operations ──
/// Whether one of the operations reads a vector register.
pub open spec fn read_somewhere(ops: Seq<Op>, id: u32) -> bool {
    exists|k: int| 0 <= k < ops.len() && reads_vreg(#[trigger] ops[k], id)
}

/// Whether nothing is left of an operation but vector registers: it has no other effect, no
/// condition code or scalar register takes a result, and no wait counts it.
pub open spec fn only_vregs(op: Op) -> bool {
    &&& !op_has_side_effects(op)
    &&& !op_writes_vcc(op)
    &&& !op_writes_scc(op)
    &&& op_sreg_defs(op).len() == 0
    &&& latency_of(op).wait_counter is None
    &&& op_vreg_defs(op).len() > 0
}

/// Whether an operation does nothing that another one needs, and names no register of a
/// group.
pub open spec fn is_dead(op: Op, ops: Seq<Op>, groups: Seq<CoalescedGroup>) -> bool {
    &&& only_vregs(op)
    &&& !names_group(op, groups)
    &&& forall|k: int|
        0 <= k < op_vreg_defs(op).len() ==> !read_somewhere(
            ops,
            (#[trigger] op_vreg_defs(op)[k]).0,
        )
}

/// Whether one of the operations is text that is not read.
pub open spec fn has_raw(ops: Seq<Op>) -> bool {
    exists|k: int| 0 <= k < ops.len() && #[trigger] ops[k] is RawAsm
}

/// The operations of `part` that do something that one of `ops` needs.
pub open spec fn needed(part: Seq<Op>, ops: Seq<Op>, groups: Seq<CoalescedGroup>) -> Seq<Op>
    decreases part.len(),
{
    if part.len() == 0 {
        Seq::empty()
    } else if is_dead(part.last(), ops, groups) {
        needed(part.drop_last(), ops, groups)
    } else {
        needed(part.drop_last(), ops, groups).push(part.last())
    }
}

/// The operations without dead ones, after up to `rounds` rounds: what becomes dead in one
/// round goes in the next.
pub open spec fn without_dead(ops: Seq<Op>, groups: Seq<CoalescedGroup>, rounds: nat) -> Seq<Op>
    decreases rounds,
{
    if rounds == 0 || has_raw(ops) {
        ops
    } else {
        without_dead(needed(ops, ops, groups), groups, (rounds - 1) as nat)
    }
}

/// The vector registers that operations read.
fn collect_reads(ops: &Vec<Op>) -> (r: HashSet<u32>)
    ensures
        forall|id: u32| #[trigger] r@.contains(id) <==> read_somewhere(ops@, id),
{
    let mut set: HashSet<u32> = HashSet::new();
    let mut i: usize = 0;
    while i < ops.len()
        invariant
            i <= ops.len(),
            forall|id: u32| #[trigger]
                set@.contains(id) <==> read_somewhere(ops@.take(i as int), id),
        decreases ops.len() - i,
    {
        let ghost before = set@;
        let uses = ops[i].vreg_uses();
        insert_regs(&mut set, &uses);
        proof {
            let was = ops@.take(i as int);
            let now = ops@.take(i + 1);
            assert forall|id: u32| #[trigger] set@.contains(id) <==> read_somewhere(now, id) by {
                assert(set@.contains(id) <==> before.contains(id) || reads_vreg(
                    ops@[i as int],
                    id,
                ));
                if read_somewhere(was, id) {
                    let k = choose|k: int| 0 <= k < was.len() && reads_vreg(#[trigger] was[k], id);
                    assert(reads_vreg(now[k], id));
                }
                if reads_vreg(ops@[i as int], id) {
                    assert(reads_vreg(now[i as int], id));
                }
                if read_somewhere(now, id) {
                    let k = choose|k: int| 0 <= k < now.len() && reads_vreg(#[trigger] now[k], id);
                    if k < i {
                        assert(reads_vreg(was[k], id));
                    }
                }
            }
        }
        i = i + 1;
    }
    assert(ops@.take(i as int) =~= ops@);
    set
}

/// Whether an operation does nothing that another one needs.
fn check_dead(
    op: &Op,
    read: &HashSet<u32>,
    groups: &[CoalescedGroup],
    Ghost(ops): Ghost<Seq<Op>>,
) -> (r: bool)
    requires
        forall|id: u32| #[trigger] read@.contains(id) <==> read_somewhere(ops, id),
    ensures
        r == is_dead(*op, ops, groups@),
{
    if op.has_side_effects() || op.writes_vcc() || op.writes_scc() {
        return false;
    }
    let sdefs = op.sreg_defs();
    if sdefs.len() > 0 || op_latency(op).wait_counter.is_some() || check_names_group(op, groups) {
        return false;
    }
    let defs = op.vreg_defs();
    if defs.len() == 0 {
        return false;
    }
    let mut k: usize = 0;
    while k < defs.len()
        invariant
            k <= defs.len(),
            defs@ == op_vreg_defs(*op),
            only_vregs(*op),
            !names_group(*op, groups@),
            forall|id: u32| #[trigger] read@.contains(id) <==> read_somewhere(ops, id),
            forall|j: int| 0 <= j < k ==> !read_somewhere(ops, (#[trigger] defs@[j]).0),
        decreases defs.len() - k,
    {
        if read.contains(&defs[k].0) {
            return false;
        }
        k = k + 1;
    }
    true
}

/// One round: the operations that do something that another one needs.
pub(crate) fn remove_dead_once(ops: &Vec<Op>, groups: &[CoalescedGroup]) -> (r: Vec<Op>)
    ensures
        r@ == needed(ops@, ops@, groups@),
        r@.len() <= ops@.len(),
{
    let read = collect_reads(ops);
    let mut out: Vec<Op> = Vec::new();
    let mut i: usize = 0;
    while i < ops.len()
        invariant
            i <= ops.len(),
            forall|id: u32| #[trigger] read@.contains(id) <==> read_somewhere(ops@, id),
            out@ == needed(ops@.take(i as int), ops@, groups@),
            out@.len() <= i,
        decreases ops.len() - i,
    {
        let dead: bool = check_dead(&ops[i], &read, groups, Ghost(ops@));
        if !dead {
            out.push(ops[i].clone());
        }
        i = i + 1;
        assert(ops@.take(i as int).drop_last() =~= ops@.take(i - 1));
    }
    assert(ops@.take(i as int) =~= ops@);
    out
}

/// Removes dead operations, in up to `rounds` rounds. Returns the operations and how many of
/// them went.
pub fn remove_dead(ops: Vec<Op>, groups: &[CoalescedGroup], rounds: u32) -> (r: (Vec<Op>, usize))
    ensures
        r.0@ == without_dead(ops@, groups@, rounds as nat),
        r.1 == ops@.len() - r.0@.len(),
        r.0@.len() <= ops@.len(),
{
    let start: usize = ops.len();
    let mut cur: Vec<Op> = ops;
    let mut left: u32 = rounds;
    while left > 0
        invariant
            cur@.len() <= start == ops@.len(),
            without_dead(ops@, groups@, rounds as nat) == without_dead(
                cur@,
                groups@,
                left as nat,
            ),
        decreases left,
    {
        let mut k: usize = 0;
        while k < cur.len()
            invariant
                k <= cur.len(),
                cur@.len() <= start == ops@.len(),
                without_dead(ops@, groups@, rounds as nat) == without_dead(
                cur@,
                groups@,
                left as nat,
            ),
                forall|j: int| 0 <= j < k ==> !(#[trigger] cur@[j] is RawAsm),
            decreases cur.len() - k,
        {
            if matches!(&cur[k], OpOf::RawAsm(_)) {
                assert(has_raw(cur@));
                let gone: usize = start - cur.len();
                return (cur, gone);
            }
            k = k + 1;
        }
        assert(!has_raw(cur@));
        cur = remove_dead_once(&cur, groups);
        left = left - 1;
    }
    let gone: usize = start - cur.len();
    (cur, gone)
}

/// The operations that have an effect beside vector registers, in order.
pub open spec fn effects(ops: Seq<Op>) -> Seq<Op>
    decreases ops.len(),
{
    if ops.len() == 0 {
        Seq::empty()
    } else if only_vregs(ops.last()) {
        effects(ops.drop_last())
    } else {
        effects(ops.drop_last()).push(ops.last())
    }
}

pub(crate) proof fn lemma_needed_keeps_effects(
    part: Seq<Op>,
    ops: Seq<Op>,
    groups: Seq<CoalescedGroup>,
)
    ensures
        effects(needed(part, ops, groups)) == effects(part),
    decreases part.len(),
{
    if part.len() > 0 {
        lemma_needed_keeps_effects(part.drop_last(), ops, groups);
        let rest = needed(part.drop_last(), ops, groups);
        if !is_dead(part.last(), ops, groups) {
            assert(rest.push(part.last()).drop_last() =~= rest);
        }
    }
}

proof fn lemma_needed_contains(
    part: Seq<Op>,
    ops: Seq<Op>,
    groups: Seq<CoalescedGroup>,
    i: int,
)
    requires
        0 <= i < part.len(),
        !is_dead(part[i], ops, groups),
    ensures
        needed(part, ops, groups).contains(part[i]),
    decreases part.len(),
{
    let rest = needed(part.drop_last(), ops, groups);
    let all = needed(part, ops, groups);
    if i == part.len() - 1 {
        assert(all.last() == part[i]);
    } else {
        lemma_needed_contains(part.drop_last(), ops, groups, i);
        let w = choose|w: int| 0 <= w < rest.len() && rest[w] == part.drop_last()[i];
        assert(all[w] == part[i]);
    }
}

/// Removing dead operations keeps every operation that has an effect beside vector
/// registers, in order.
pub proof fn removal_keeps_effects(ops: Seq<Op>, groups: Seq<CoalescedGroup>, rounds: nat)
    ensures
        effects(without_dead(ops, groups, rounds)) == effects(ops),
    decreases rounds,
{
    if rounds > 0 && !has_raw(ops) {
        lemma_needed_keeps_effects(ops, ops, groups);
        removal_keeps_effects(needed(ops, ops, groups), groups, (rounds - 1) as nat);
    }
}

/// Whatever an operation reads is still written as it was: an operation that writes a
/// register that some operation reads does not go in that round.
pub proof fn removal_keeps_what_is_read(
    ops: Seq<Op>,
    groups: Seq<CoalescedGroup>,
    i: int,
    id: u32,
)
    requires
        0 <= i < ops.len(),
        writes_vreg(ops[i], id),
        read_somewhere(ops, id),
    ensures
        needed(ops, ops, groups).contains(ops[i]),
{
    let defs = op_vreg_defs(ops[i]);
    let k = choose|k: int| 0 <= k < defs.len() && defs[k] == VReg(id);
    assert(defs[k].0 == id);
    lemma_needed_contains(ops, ops, groups, i);
}

/// Whatever names a register of a group that has to stay consecutive does not go.
pub proof fn removal_skips_groups(ops: Seq<Op>, groups: Seq<CoalescedGroup>, rounds: nat, op: Op)
    requires
        ops.contains(op),
        names_group(op, groups),
    ensures
        without_dead(ops, groups, rounds).contains(op),
    decreases rounds,
{
    if rounds > 0 && !has_raw(ops) {
        let i = choose|i: int| 0 <= i < ops.len() && ops[i] == op;
        lemma_needed_contains(ops, ops, groups, i);
        removal_skips_groups(needed(ops, ops, groups), groups, (rounds - 1) as nat, op);
    }
}

} // verus!
