//! Passes over a kernel's operations: loop unrolling, coalescing of global accesses,
//! scheduling, software pipelining, and the order in which passes run:
//!
//! 1. constant folding, algebraic simplification and copy propagation,
//! 2. removal of common subexpressions and instruction combining,
//! 3. motion of operations out of loops, loop unrolling and strength reduction,
//! 4. simplification and removal of dead operations, round by round,
//! 5. removal of waits for nothing,
//! 6. coalescing of global accesses and scheduling.
use std::collections::HashSet;

use vstd::prelude::*;

use crate::asm_emitter::{counts_vm, counts_vs};
use crate::combine::{combine, combined, combined_count};
use crate::compile::CoalescedGroup;
use crate::fold::{fold_constants, fold_count, folded, has_raw, needed, remove_dead_once};
use crate::ir::{
    Op, OpOf, Operand, SOperand, SReg, VReg, Width, op_has_side_effects, op_reads_scc, op_reads_vcc,
    op_sreg_defs, op_sreg_uses, op_vreg_defs, op_vreg_refs, op_vreg_uses, op_writes_scc,
    op_writes_vcc, push_vregs, vregs,
};
use crate::latency_model::{
    WaitCounter, can_overlap_lds, can_overlap_vmem, op_latency, overlaps_lds, overlaps_vmem,
};
use crate::loops::{
    capped, hoist_invariants, hoist_spans, reduce_spans, strength_reduce,
};
use crate::simplify::{
    propagate_copies, propagated, propagated_count, simplified, simplified_count, simplify,
};
use crate::subexpr::{common_count, remove_common, without_common};
use crate::waits::{leaves_lgkm, remove_idle_waits, without_idle_waits};

verus! {

broadcast use vstd::std_specs::hash::group_hash_axioms;

// ── Counted loops ──
/// A counted loop:
///
/// ```text
/// header:  label
///          leave for the exit label when iter >= end
///          body
/// latch:   iter += step
///          branch to the header
/// exit:    label
/// ```
pub struct LoopInfo {
    /// Index of the header label.
    pub header_idx: usize,
    /// Index of the branch that leaves the loop.
    pub exit_branch_idx: usize,
    /// Index of the first operation of the body.
    pub body_start: usize,
    /// Index of the increment.
    pub latch_add_idx: usize,
    /// Index of the branch back to the header.
    pub backedge_idx: usize,
    /// Index of the exit label.
    pub exit_label_idx: usize,
    /// The counter.
    pub iter_sreg: SReg,
    /// The bound.
    pub end_sreg: SReg,
    /// The increment's value.
    pub step: i32,
    /// Name of the header label.
    pub header_label: String,
    /// Name of the exit label.
    pub exit_label: String,
}

/// The index of the last label of a name among the first `n` operations.
pub open spec fn label_pos(ops: Seq<Op>, n: int, name: Seq<char>) -> Option<int>
    decreases n,
{
    if n <= 0 {
        None
    } else {
        match ops[n - 1] {
            OpOf::Label(l) => if l@ == name {
                Some(n - 1)
            } else {
                label_pos(ops, n - 1, name)
            },
            _ => label_pos(ops, n - 1, name),
        }
    }
}

/// Whether the operation at `i` closes a counted loop whose header is at `h`.
pub open spec fn closes_loop(ops: Seq<Op>, h: int, i: int) -> bool {
    &&& 0 <= h < i < ops.len()
    &&& ops[i] matches OpOf::Branch(target) && label_pos(ops, ops.len() as int, target@) == Some(h)
    &&& h + 3 < i - 1
    &&& (ops[i - 1] matches OpOf::SAddU32 { dst, src0, src1: SOperand::InlineInt(_) } && dst == src0
        && (ops[h + 1] matches OpOf::SCmpGeU32 { src0: counter, .. } && counter == dst))
    &&& ops[h + 2] matches OpOf::BranchScc1(exit)
        && label_pos(ops, ops.len() as int, exit@) == Some(i + 1)
}

/// The loop that the operation at `i` closes.
pub open spec fn is_loop(ops: Seq<Op>, i: int, l: LoopInfo) -> bool {
    &&& closes_loop(ops, l.header_idx as int, i)
    &&& l.exit_branch_idx == l.header_idx + 2
    &&& l.body_start == l.header_idx + 3
    &&& l.latch_add_idx == i - 1
    &&& l.backedge_idx == i
    &&& l.exit_label_idx == i + 1
    &&& ops[i - 1] matches OpOf::SAddU32 { dst, src1: SOperand::InlineInt(step), .. }
        && dst == l.iter_sreg && step == l.step
    &&& ops[l.header_idx + 1] matches OpOf::SCmpGeU32 { src1, .. } && src1 == l.end_sreg
    &&& ops[i] matches OpOf::Branch(target) && target@ == l.header_label@
    &&& ops[l.header_idx + 2] matches OpOf::BranchScc1(exit) && exit@ == l.exit_label@
}

/// Whether the operation at `i` closes a counted loop.
pub open spec fn closes_some_loop(ops: Seq<Op>, i: int) -> bool {
    exists|h: int| #[trigger] closes_loop(ops, h, i)
}

/// The operations among the first `n` that close a counted loop, in order.
pub open spec fn backedges(ops: Seq<Op>, n: int) -> Seq<int>
    decreases n,
{
    if n <= 0 {
        Seq::empty()
    } else if closes_some_loop(ops, n - 1) {
        backedges(ops, n - 1).push(n - 1)
    } else {
        backedges(ops, n - 1)
    }
}

/// Whether `loops` are the counted loops of `ops`, in the order of their back edges.
pub open spec fn loops_of(ops: Seq<Op>, loops: Seq<LoopInfo>) -> bool {
    &&& loops.len() == backedges(ops, ops.len() as int).len()
    &&& forall|k: int|
        0 <= k < loops.len() ==> #[trigger] is_loop(
            ops,
            backedges(ops, ops.len() as int)[k],
            loops[k],
        )
}

/// The index of the last label of a name.
fn find_label(ops: &[Op], name: &String) -> (r: Option<usize>)
    ensures
        match r {
            Some(p) => label_pos(
                ops@,
                ops@.len() as int,
                name@,
            ) == Some(p as int) && p < ops@.len(),
            None => label_pos(ops@, ops@.len() as int, name@) is None,
        },
{
    let mut i: usize = ops.len();
    while i > 0
        invariant
            i <= ops.len(),
            label_pos(ops@, ops@.len() as int, name@) == label_pos(ops@, i as int, name@),
        decreases i,
    {
        match &ops[i - 1] {
            OpOf::Label(l) => {
                if *l == *name {
                    return Some(i - 1);
                }
            },
            _ => {},
        }
        i = i - 1;
    }
    None
}

/// The loop that the operation at `i` closes, if it closes one.
fn loop_at(ops: &[Op], i: usize) -> (r: Option<LoopInfo>)
    requires
        i < ops@.len(),
    ensures
        match r {
            Some(l) => is_loop(ops@, i as int, l),
            None => !closes_some_loop(ops@, i as int),
        },
{
    let target = match &ops[i] {
        OpOf::Branch(t) => t,
        _ => {
            return None;
        },
    };
    let header_idx: usize = match find_label(ops, target) {
        Some(p) => p,
        None => {
            return None;
        },
    };
    if header_idx >= i || i - header_idx <= 4 {
        return None;
    }
    let (iter_sreg, step) = match &ops[i - 1] {
        OpOf::SAddU32 { dst, src0, src1: SOperand::InlineInt(s) } => {
            if *dst == *src0 {
                (*dst, *s)
            } else {
                return None;
            }
        },
        _ => {
            return None;
        },
    };
    let end_sreg = match &ops[header_idx + 1] {
        OpOf::SCmpGeU32 { src0, src1 } => {
            if *src0 == iter_sreg {
                *src1
            } else {
                return None;
            }
        },
        _ => {
            return None;
        },
    };
    let exit_label = match &ops[header_idx + 2] {
        OpOf::BranchScc1(l) => l,
        _ => {
            return None;
        },
    };
    match find_label(ops, exit_label) {
        Some(p) => {
            if p != i + 1 {
                return None;
            }
        },
        None => {
            return None;
        },
    }
    let l = LoopInfo {
        header_idx,
        exit_branch_idx: header_idx + 2,
        body_start: header_idx + 3,
        latch_add_idx: i - 1,
        backedge_idx: i,
        exit_label_idx: i + 1,
        iter_sreg,
        end_sreg,
        step,
        header_label: target.clone(),
        exit_label: exit_label.clone(),
    };
    assert(closes_loop(ops@, header_idx as int, i as int));
    Some(l)
}

/// Finds the counted loops.
pub fn detect_loops(ops: &[Op]) -> (r: Vec<LoopInfo>)
    ensures
        loops_of(ops@, r@),
{
    let mut loops: Vec<LoopInfo> = Vec::new();
    let mut i: usize = 0;
    while i < ops.len()
        invariant
            i <= ops.len(),
            loops@.len() == backedges(ops@, i as int).len(),
            forall|k: int|
                0 <= k < loops@.len() ==> #[trigger] is_loop(
                    ops@,
                    backedges(ops@, i as int)[k],
                    loops@[k],
                ),
        decreases ops.len() - i,
    {
        match loop_at(ops, i) {
            Some(l) => {
                assert(closes_loop(ops@, l.header_idx as int, i as int));
                loops.push(l);
            },
            None => {},
        }
        i = i + 1;
    }
    loops
}

// ── Loop unrolling ──
/// Whether an operation keeps a loop from being unrolled: control flow, barriers and
/// matrix operations.
pub open spec fn blocks_unroll(op: Op) -> bool {
    op is Label || op is Branch || op is BranchScc1 || op is BranchScc0 || op is BranchVccz
        || op is Barrier || op is SBarrier || op is Wmma
}

/// Whether no operation of `[from, to)` keeps a loop from being unrolled.
pub open spec fn safe_to_unroll(ops: Seq<Op>, from: int, to: int) -> bool {
    forall|k: int| from <= k < to ==> !blocks_unroll(#[trigger] ops[k])
}

/// Whether a loop body is safe to unroll.
pub fn is_safe_to_unroll(ops: &[Op], body_start: usize, body_end: usize) -> (r: bool)
    requires
        body_end <= ops@.len(),
    ensures
        r == safe_to_unroll(ops@, body_start as int, body_end as int),
{
    let mut i: usize = body_start;
    while i < body_end
        invariant
            body_start <= i,
            body_end <= ops@.len(),
            safe_to_unroll(ops@, body_start as int, i as int),
        decreases body_end - i,
    {
        match &ops[i] {
            OpOf::Label(_)
            | OpOf::Branch(_)
            | OpOf::BranchScc1(_)
            | OpOf::BranchScc0(_)
            | OpOf::BranchVccz(_)
            | OpOf::Barrier
            | OpOf::SBarrier
            | OpOf::Wmma { .. } => {
                return false;
            },
            _ => {},
        }
        i = i + 1;
    }
    true
}

/// How many copies of a body of a given size an unrolled loop holds.
pub open spec fn copies_for(body_size: nat) -> nat {
    if body_size == 0 {
        1
    } else if body_size <= 16 {
        4
    } else if body_size <= 48 {
        2
    } else {
        1
    }
}

/// How many copies of a body an unrolled loop holds.
pub fn unroll_factor(body_size: usize) -> (r: usize)
    ensures
        r == copies_for(body_size as nat),
{
    if body_size == 0 {
        return 1;
    }
    if body_size <= 16 {
        return 4;
    }
    if body_size <= 48 {
        return 2;
    }
    1
}

/// The largest number in a sequence of registers, or `least`.
pub open spec fn max_id(regs: Seq<VReg>, least: nat) -> nat
    decreases regs.len(),
{
    if regs.len() == 0 {
        least
    } else {
        let before = max_id(regs.drop_last(), least);
        if regs.last().0 > before {
            regs.last().0 as nat
        } else {
            before
        }
    }
}

/// The largest number of a vector register that operations name, or zero.
pub open spec fn max_vreg(ops: Seq<Op>) -> nat
    decreases ops.len(),
{
    if ops.len() == 0 {
        0
    } else {
        max_id(op_vreg_refs(ops.last()), max_vreg(ops.drop_last()))
    }
}

proof fn lemma_max_id(regs: Seq<VReg>, least: nat)
    requires
        least <= u32::MAX,
    ensures
        least <= max_id(regs, least) <= u32::MAX,
        forall|k: int| 0 <= k < regs.len() ==> (#[trigger] regs[k]).0 <= max_id(regs, least),
    decreases regs.len(),
{
    if regs.len() > 0 {
        lemma_max_id(regs.drop_last(), least);
        assert forall|k: int| 0 <= k < regs.len() implies (#[trigger] regs[k]).0 <= max_id(
            regs,
            least,
        ) by {
            if k < regs.len() - 1 {
                assert(regs.drop_last()[k] == regs[k]);
            }
        }
    }
}

/// Every register that an operation names is at most the largest one.
pub proof fn max_vreg_is_largest(ops: Seq<Op>)
    ensures
        max_vreg(ops) <= u32::MAX,
        forall|i: int, k: int|
            0 <= i < ops.len() && 0 <= k < op_vreg_refs(ops[i]).len() ==> (
            #[trigger] op_vreg_refs(ops[i])[k]).0 <= max_vreg(ops),
    decreases ops.len(),
{
    if ops.len() > 0 {
        max_vreg_is_largest(ops.drop_last());
        lemma_max_id(op_vreg_refs(ops.last()), max_vreg(ops.drop_last()));
        assert forall|i: int, k: int|
            0 <= i < ops.len() && 0 <= k < op_vreg_refs(ops[i]).len() implies (
        #[trigger] op_vreg_refs(ops[i])[k]).0 <= max_vreg(ops) by {
            if i < ops.len() - 1 {
                assert(ops.drop_last()[i] == ops[i]);
            }
        }
    }
}

/// The largest number of a vector register that operations name, or zero.
pub fn max_vreg_in_ops(ops: &[Op]) -> (r: u32)
    ensures
        r == max_vreg(ops@),
{
    let mut max_v: u32 = 0;
    let mut i: usize = 0;
    while i < ops.len()
        invariant
            i <= ops.len(),
            max_v == max_vreg(ops@.take(i as int)),
        decreases ops.len() - i,
    {
        let refs: Vec<VReg> = ops[i].vreg_refs();
        let ghost start = max_v;
        let mut k: usize = 0;
        while k < refs.len()
            invariant
                k <= refs.len(),
                max_v == max_id(refs@.take(k as int), start as nat),
            decreases refs.len() - k,
        {
            if refs[k].0 > max_v {
                max_v = refs[k].0;
            }
            k = k + 1;
            assert(refs@.take(k as int).drop_last() =~= refs@.take(k - 1));
        }
        assert(refs@.take(k as int) =~= refs@);
        i = i + 1;
        assert(ops@.take(i as int).drop_last() =~= ops@.take(i - 1));
    }
    assert(ops@.take(i as int) =~= ops@);
    max_v
}

/// A register of the set, moved by `offset`; any other register as it is.
pub open spec fn renamed_vreg(v: VReg, offset: u32, set: Set<u32>) -> VReg {
    if set.contains(v.0) {
        VReg((v.0 + offset) as u32)
    } else {
        v
    }
}

/// An operand whose register is renamed.
pub open spec fn renamed_operand(o: Operand, offset: u32, set: Set<u32>) -> Operand {
    match o {
        Operand::VReg(v) => Operand::VReg(renamed_vreg(v, offset, set)),
        _ => o,
    }
}

/// An operation whose vector registers of the set are moved by `delta`, wherever it names
/// them.
pub open spec fn renamed_op(op: Op, delta: u32, set: Set<u32>) -> Op {
    match op {
        OpOf::GlobalLoad { dst, addr, width, offset } => OpOf::GlobalLoad {
            dst: renamed_vreg(dst, delta, set),
            addr: renamed_vreg(addr, delta, set),
            width,
            offset,
        },
        OpOf::GlobalStore { addr, src, width, offset } => OpOf::GlobalStore {
            addr: renamed_vreg(addr, delta, set),
            src: renamed_vreg(src, delta, set),
            width,
            offset,
        },
        OpOf::BufferLoad { dst, voffset, srsrc, width, offset, soffset } => OpOf::BufferLoad {
            dst: renamed_vreg(dst, delta, set),
            voffset: renamed_vreg(voffset, delta, set),
            srsrc,
            width,
            offset,
            soffset,
        },
        OpOf::BufferStore { voffset, src, srsrc, width, offset, soffset } => OpOf::BufferStore {
            voffset: renamed_vreg(voffset, delta, set),
            src: renamed_vreg(src, delta, set),
            srsrc,
            width,
            offset,
            soffset,
        },
        OpOf::GlobalAtomicAddF32 { addr, src, offset } => OpOf::GlobalAtomicAddF32 {
            addr: renamed_vreg(addr, delta, set),
            src: renamed_vreg(src, delta, set),
            offset,
        },
        OpOf::GlobalAtomicAddU32Rtn { dst, addr, src } => OpOf::GlobalAtomicAddU32Rtn {
            dst: renamed_vreg(dst, delta, set),
            addr: renamed_vreg(addr, delta, set),
            src: renamed_vreg(src, delta, set),
        },
        OpOf::BufferWbl2 { addr } => OpOf::BufferWbl2 {
            addr: renamed_vreg(addr, delta, set),
        },
        OpOf::LdsLoad { dst, addr, width, offset } => OpOf::LdsLoad {
            dst: renamed_vreg(dst, delta, set),
            addr: renamed_vreg(addr, delta, set),
            width,
            offset,
        },
        OpOf::LdsStore { addr, src, width, offset } => OpOf::LdsStore {
            addr: renamed_vreg(addr, delta, set),
            src: renamed_vreg(src, delta, set),
            width,
            offset,
        },
        OpOf::DsStoreB16 { vaddr, src, offset } => OpOf::DsStoreB16 {
            vaddr: renamed_vreg(vaddr, delta, set),
            src: renamed_vreg(src, delta, set),
            offset,
        },
        OpOf::DsStoreB32 { vaddr, src, offset } => OpOf::DsStoreB32 {
            vaddr: renamed_vreg(vaddr, delta, set),
            src: renamed_vreg(src, delta, set),
            offset,
        },
        OpOf::DsStoreB64 { vaddr, src, offset } => OpOf::DsStoreB64 {
            vaddr: renamed_vreg(vaddr, delta, set),
            src: renamed_vreg(src, delta, set),
            offset,
        },
        OpOf::DsStoreB128 { vaddr, src, offset } => OpOf::DsStoreB128 {
            vaddr: renamed_vreg(vaddr, delta, set),
            src: renamed_vreg(src, delta, set),
            offset,
        },
        OpOf::DsLoadB32 { dst, vaddr, offset } => OpOf::DsLoadB32 {
            dst: renamed_vreg(dst, delta, set),
            vaddr: renamed_vreg(vaddr, delta, set),
            offset,
        },
        OpOf::DsLoadB64 { dst, vaddr, offset } => OpOf::DsLoadB64 {
            dst: renamed_vreg(dst, delta, set),
            vaddr: renamed_vreg(vaddr, delta, set),
            offset,
        },
        OpOf::DsLoadB128 { dst, vaddr, offset } => OpOf::DsLoadB128 {
            dst: renamed_vreg(dst, delta, set),
            vaddr: renamed_vreg(vaddr, delta, set),
            offset,
        },
        OpOf::DsLoadU16 { dst, vaddr, offset } => OpOf::DsLoadU16 {
            dst: renamed_vreg(dst, delta, set),
            vaddr: renamed_vreg(vaddr, delta, set),
            offset,
        },
        OpOf::DsLoadU16D16 { dst, vaddr, offset } => OpOf::DsLoadU16D16 {
            dst: renamed_vreg(dst, delta, set),
            vaddr: renamed_vreg(vaddr, delta, set),
            offset,
        },
        OpOf::DsLoadU16D16Hi { dst, vaddr, offset } => OpOf::DsLoadU16D16Hi {
            dst: renamed_vreg(dst, delta, set),
            vaddr: renamed_vreg(vaddr, delta, set),
            offset,
        },
        OpOf::VAddF32 { dst, src0, src1 } => OpOf::VAddF32 {
            dst: renamed_vreg(dst, delta, set),
            src0: renamed_operand(src0, delta, set),
            src1: renamed_operand(src1, delta, set),
        },
        OpOf::VMulF32 { dst, src0, src1 } => OpOf::VMulF32 {
            dst: renamed_vreg(dst, delta, set),
            src0: renamed_operand(src0, delta, set),
            src1: renamed_operand(src1, delta, set),
        },
        OpOf::VSubF32 { dst, src0, src1 } => OpOf::VSubF32 {
            dst: renamed_vreg(dst, delta, set),
            src0: renamed_operand(src0, delta, set),
            src1: renamed_operand(src1, delta, set),
        },
        OpOf::VMaxF32 { dst, src0, src1 } => OpOf::VMaxF32 {
            dst: renamed_vreg(dst, delta, set),
            src0: renamed_operand(src0, delta, set),
            src1: renamed_operand(src1, delta, set),
        },
        OpOf::VMinF32 { dst, src0, src1 } => OpOf::VMinF32 {
            dst: renamed_vreg(dst, delta, set),
            src0: renamed_operand(src0, delta, set),
            src1: renamed_operand(src1, delta, set),
        },
        OpOf::VMinU32 { dst, src0, src1 } => OpOf::VMinU32 {
            dst: renamed_vreg(dst, delta, set),
            src0: renamed_operand(src0, delta, set),
            src1: renamed_operand(src1, delta, set),
        },
        OpOf::VAddU32 { dst, src0, src1 } => OpOf::VAddU32 {
            dst: renamed_vreg(dst, delta, set),
            src0: renamed_operand(src0, delta, set),
            src1: renamed_operand(src1, delta, set),
        },
        OpOf::VSubU32 { dst, src0, src1 } => OpOf::VSubU32 {
            dst: renamed_vreg(dst, delta, set),
            src0: renamed_operand(src0, delta, set),
            src1: renamed_operand(src1, delta, set),
        },
        OpOf::VAndB32 { dst, src0, src1 } => OpOf::VAndB32 {
            dst: renamed_vreg(dst, delta, set),
            src0: renamed_operand(src0, delta, set),
            src1: renamed_operand(src1, delta, set),
        },
        OpOf::VOrB32 { dst, src0, src1 } => OpOf::VOrB32 {
            dst: renamed_vreg(dst, delta, set),
            src0: renamed_operand(src0, delta, set),
            src1: renamed_operand(src1, delta, set),
        },
        OpOf::VXorB32 { dst, src0, src1 } => OpOf::VXorB32 {
            dst: renamed_vreg(dst, delta, set),
            src0: renamed_operand(src0, delta, set),
            src1: renamed_operand(src1, delta, set),
        },
        OpOf::VFmaF32 { dst, src0, src1, src2 } => OpOf::VFmaF32 {
            dst: renamed_vreg(dst, delta, set),
            src0: renamed_operand(src0, delta, set),
            src1: renamed_operand(src1, delta, set),
            src2: renamed_operand(src2, delta, set),
        },
        OpOf::VMov { dst, src } => OpOf::VMov {
            dst: renamed_vreg(dst, delta, set),
            src: renamed_operand(src, delta, set),
        },
        OpOf::VMovFromSgpr { dst, src } => OpOf::VMovFromSgpr {
            dst: renamed_vreg(dst, delta, set),
            src,
        },
        OpOf::VMulLoU32 { dst, src0, src1 } => OpOf::VMulLoU32 {
            dst: renamed_vreg(dst, delta, set),
            src0: renamed_vreg(src0, delta, set),
            src1: renamed_vreg(src1, delta, set),
        },
        OpOf::VLshlrevB32 { dst, shift, src } => OpOf::VLshlrevB32 {
            dst: renamed_vreg(dst, delta, set),
            shift,
            src: renamed_vreg(src, delta, set),
        },
        OpOf::VLshrrevB32 { dst, shift, src } => OpOf::VLshrrevB32 {
            dst: renamed_vreg(dst, delta, set),
            shift,
            src: renamed_vreg(src, delta, set),
        },
        OpOf::VLshrrevB32Vgpr { dst, shift, src } => OpOf::VLshrrevB32Vgpr {
            dst: renamed_vreg(dst, delta, set),
            shift: renamed_vreg(shift, delta, set),
            src: renamed_vreg(src, delta, set),
        },
        OpOf::VAndOrB32 { dst, src0, literal, src2 } => OpOf::VAndOrB32 {
            dst: renamed_vreg(dst, delta, set),
            src0: renamed_vreg(src0, delta, set),
            literal,
            src2: renamed_vreg(src2, delta, set),
        },
        OpOf::VReadfirstlane { dst, src } => OpOf::VReadfirstlane {
            dst,
            src: renamed_vreg(src, delta, set),
        },
        OpOf::CvtPkBf16F32 { dst, src0, src1 } => OpOf::CvtPkBf16F32 {
            dst: renamed_vreg(dst, delta, set),
            src0: renamed_vreg(src0, delta, set),
            src1: renamed_vreg(src1, delta, set),
        },
        OpOf::VCvtF32U32 { dst, src } => OpOf::VCvtF32U32 {
            dst: renamed_vreg(dst, delta, set),
            src: renamed_vreg(src, delta, set),
        },
        OpOf::VCvtU32F32 { dst, src } => OpOf::VCvtU32F32 {
            dst: renamed_vreg(dst, delta, set),
            src: renamed_vreg(src, delta, set),
        },
        OpOf::VPermlanex16B32 { dst, src } => OpOf::VPermlanex16B32 {
            dst: renamed_vreg(dst, delta, set),
            src: renamed_vreg(src, delta, set),
        },
        OpOf::VRsqF32 { dst, src } => OpOf::VRsqF32 {
            dst: renamed_vreg(dst, delta, set),
            src: renamed_vreg(src, delta, set),
        },
        OpOf::VExpF32 { dst, src } => OpOf::VExpF32 {
            dst: renamed_vreg(dst, delta, set),
            src: renamed_vreg(src, delta, set),
        },
        OpOf::VSinF32 { dst, src } => OpOf::VSinF32 {
            dst: renamed_vreg(dst, delta, set),
            src: renamed_vreg(src, delta, set),
        },
        OpOf::VCosF32 { dst, src } => OpOf::VCosF32 {
            dst: renamed_vreg(dst, delta, set),
            src: renamed_vreg(src, delta, set),
        },
        OpOf::VRcpF32 { dst, src } => OpOf::VRcpF32 {
            dst: renamed_vreg(dst, delta, set),
            src: renamed_vreg(src, delta, set),
        },
        OpOf::VSqrtF32 { dst, src } => OpOf::VSqrtF32 {
            dst: renamed_vreg(dst, delta, set),
            src: renamed_vreg(src, delta, set),
        },
        OpOf::VLog2F32 { dst, src } => OpOf::VLog2F32 {
            dst: renamed_vreg(dst, delta, set),
            src: renamed_vreg(src, delta, set),
        },
        OpOf::VAddCo { dst, src0, src1 } => OpOf::VAddCo {
            dst: renamed_vreg(dst, delta, set),
            src0: renamed_vreg(src0, delta, set),
            src1: renamed_vreg(src1, delta, set),
        },
        OpOf::VAddCoCi { dst, src } => OpOf::VAddCoCi {
            dst: renamed_vreg(dst, delta, set),
            src: renamed_vreg(src, delta, set),
        },
        OpOf::VAddCOU32 { dst, src0, src1 } => OpOf::VAddCOU32 {
            dst: renamed_vreg(dst, delta, set),
            src0: renamed_vreg(src0, delta, set),
            src1: renamed_vreg(src1, delta, set),
        },
        OpOf::VAddCCU32 { dst, src } => OpOf::VAddCCU32 {
            dst: renamed_vreg(dst, delta, set),
            src: renamed_vreg(src, delta, set),
        },
        OpOf::VCmpLtU32 { src0, src1 } => OpOf::VCmpLtU32 {
            src0: renamed_operand(src0, delta, set),
            src1: renamed_operand(src1, delta, set),
        },
        OpOf::VCmpGeU32 { src0, src1 } => OpOf::VCmpGeU32 {
            src0: renamed_operand(src0, delta, set),
            src1: renamed_operand(src1, delta, set),
        },
        OpOf::VCmpGtU32 { src0, src1 } => OpOf::VCmpGtU32 {
            src0: renamed_operand(src0, delta, set),
            src1: renamed_operand(src1, delta, set),
        },
        OpOf::VCmpEqU32 { src0, src1 } => OpOf::VCmpEqU32 {
            src0: renamed_operand(src0, delta, set),
            src1: renamed_operand(src1, delta, set),
        },
        OpOf::VCmpEqF32 { src0, src1 } => OpOf::VCmpEqF32 {
            src0: renamed_operand(src0, delta, set),
            src1: renamed_operand(src1, delta, set),
        },
        OpOf::VCmpGtF32 { src0, src1 } => OpOf::VCmpGtF32 {
            src0: renamed_operand(src0, delta, set),
            src1: renamed_operand(src1, delta, set),
        },
        OpOf::VCmpLtF32 { src0, src1 } => OpOf::VCmpLtF32 {
            src0: renamed_operand(src0, delta, set),
            src1: renamed_operand(src1, delta, set),
        },
        OpOf::VCmpGeF32 { src0, src1 } => OpOf::VCmpGeF32 {
            src0: renamed_operand(src0, delta, set),
            src1: renamed_operand(src1, delta, set),
        },
        OpOf::VCmpGtF32Imm0 { src } => OpOf::VCmpGtF32Imm0 {
            src: renamed_vreg(src, delta, set),
        },
        OpOf::VCmpGtU32Imm { src, imm } => OpOf::VCmpGtU32Imm {
            src: renamed_vreg(src, delta, set),
            imm,
        },
        OpOf::VCmpEqU32Imm { src, imm } => OpOf::VCmpEqU32Imm {
            src: renamed_vreg(src, delta, set),
            imm,
        },
        OpOf::VCmpGeI32 { src0, src1 } => OpOf::VCmpGeI32 {
            src0: renamed_vreg(src0, delta, set),
            src1: renamed_vreg(src1, delta, set),
        },
        OpOf::VCndmaskB32 { dst, src_false, src_true } => OpOf::VCndmaskB32 {
            dst: renamed_vreg(dst, delta, set),
            src_false: renamed_operand(src_false, delta, set),
            src_true: renamed_operand(src_true, delta, set),
        },
        OpOf::Wmma { dst, a, b, c, format } => OpOf::Wmma {
            dst: renamed_vreg(dst, delta, set),
            a: renamed_vreg(a, delta, set),
            b: renamed_vreg(b, delta, set),
            c: renamed_vreg(c, delta, set),
            format,
        },
        OpOf::DsSwizzle { dst, src, offset } => OpOf::DsSwizzle {
            dst: renamed_vreg(dst, delta, set),
            src: renamed_vreg(src, delta, set),
            offset,
        },
        OpOf::WaveReduceAddF32 { val, tmp } => OpOf::WaveReduceAddF32 {
            val: renamed_vreg(val, delta, set),
            tmp: renamed_vreg(tmp, delta, set),
        },
        OpOf::WaveReduceMaxF32 { val, tmp } => OpOf::WaveReduceMaxF32 {
            val: renamed_vreg(val, delta, set),
            tmp: renamed_vreg(tmp, delta, set),
        },
        OpOf::WaveReduceMinF32 { val, tmp } => OpOf::WaveReduceMinF32 {
            val: renamed_vreg(val, delta, set),
            tmp: renamed_vreg(tmp, delta, set),
        },
        OpOf::ComputeGlobalIdX { dst, wg_size } => OpOf::ComputeGlobalIdX {
            dst: renamed_vreg(dst, delta, set),
            wg_size,
        },
        OpOf::ReadShaderCycles { dst } => OpOf::ReadShaderCycles {
            dst: renamed_vreg(dst, delta, set),
        },
        _ => op,
    }
}

/// A register of the set, moved by `offset`; any other register as it is.
fn rename_vreg(v: VReg, offset: u32, set: &HashSet<u32>) -> (r: VReg)
    requires
        forall|id: u32| #[trigger] set@.contains(id) ==> id + offset <= u32::MAX,
    ensures
        r == renamed_vreg(v, offset, set@),
{
    if set.contains(&v.0) {
        VReg(v.0 + offset)
    } else {
        v
    }
}

/// An operand whose register is renamed.
fn rename_operand(o: Operand, offset: u32, set: &HashSet<u32>) -> (r: Operand)
    requires
        forall|id: u32| #[trigger] set@.contains(id) ==> id + offset <= u32::MAX,
    ensures
        r == renamed_operand(o, offset, set@),
{
    match o {
        Operand::VReg(v) => Operand::VReg(rename_vreg(v, offset, set)),
        _ => o,
    }
}

/// An operation whose vector registers of the set are moved by `delta`.
pub fn rename_op_vregs(op: &Op, delta: u32, set: &HashSet<u32>) -> (r: Op)
    requires
        forall|id: u32| #[trigger] set@.contains(id) ==> id + delta <= u32::MAX,
    ensures
        r == renamed_op(*op, delta, set@),
{
    match op {
        OpOf::GlobalLoad { dst, addr, width, offset } => OpOf::GlobalLoad {
            dst: rename_vreg(*dst, delta, set),
            addr: rename_vreg(*addr, delta, set),
            width: *width,
            offset: *offset,
        },
        OpOf::GlobalStore { addr, src, width, offset } => OpOf::GlobalStore {
            addr: rename_vreg(*addr, delta, set),
            src: rename_vreg(*src, delta, set),
            width: *width,
            offset: *offset,
        },
        OpOf::BufferLoad { dst, voffset, srsrc, width, offset, soffset } => OpOf::BufferLoad {
            dst: rename_vreg(*dst, delta, set),
            voffset: rename_vreg(*voffset, delta, set),
            srsrc: *srsrc,
            width: *width,
            offset: *offset,
            soffset: *soffset,
        },
        OpOf::BufferStore { voffset, src, srsrc, width, offset, soffset } => OpOf::BufferStore {
            voffset: rename_vreg(*voffset, delta, set),
            src: rename_vreg(*src, delta, set),
            srsrc: *srsrc,
            width: *width,
            offset: *offset,
            soffset: *soffset,
        },
        OpOf::GlobalAtomicAddF32 { addr, src, offset } => OpOf::GlobalAtomicAddF32 {
            addr: rename_vreg(*addr, delta, set),
            src: rename_vreg(*src, delta, set),
            offset: *offset,
        },
        OpOf::GlobalAtomicAddU32Rtn { dst, addr, src } => OpOf::GlobalAtomicAddU32Rtn {
            dst: rename_vreg(*dst, delta, set),
            addr: rename_vreg(*addr, delta, set),
            src: rename_vreg(*src, delta, set),
        },
        OpOf::BufferWbl2 { addr } => OpOf::BufferWbl2 {
            addr: rename_vreg(*addr, delta, set),
        },
        OpOf::LdsLoad { dst, addr, width, offset } => OpOf::LdsLoad {
            dst: rename_vreg(*dst, delta, set),
            addr: rename_vreg(*addr, delta, set),
            width: *width,
            offset: *offset,
        },
        OpOf::LdsStore { addr, src, width, offset } => OpOf::LdsStore {
            addr: rename_vreg(*addr, delta, set),
            src: rename_vreg(*src, delta, set),
            width: *width,
            offset: *offset,
        },
        OpOf::DsStoreB16 { vaddr, src, offset } => OpOf::DsStoreB16 {
            vaddr: rename_vreg(*vaddr, delta, set),
            src: rename_vreg(*src, delta, set),
            offset: *offset,
        },
        OpOf::DsStoreB32 { vaddr, src, offset } => OpOf::DsStoreB32 {
            vaddr: rename_vreg(*vaddr, delta, set),
            src: rename_vreg(*src, delta, set),
            offset: *offset,
        },
        OpOf::DsStoreB64 { vaddr, src, offset } => OpOf::DsStoreB64 {
            vaddr: rename_vreg(*vaddr, delta, set),
            src: rename_vreg(*src, delta, set),
            offset: *offset,
        },
        OpOf::DsStoreB128 { vaddr, src, offset } => OpOf::DsStoreB128 {
            vaddr: rename_vreg(*vaddr, delta, set),
            src: rename_vreg(*src, delta, set),
            offset: *offset,
        },
        OpOf::DsLoadB32 { dst, vaddr, offset } => OpOf::DsLoadB32 {
            dst: rename_vreg(*dst, delta, set),
            vaddr: rename_vreg(*vaddr, delta, set),
            offset: *offset,
        },
        OpOf::DsLoadB64 { dst, vaddr, offset } => OpOf::DsLoadB64 {
            dst: rename_vreg(*dst, delta, set),
            vaddr: rename_vreg(*vaddr, delta, set),
            offset: *offset,
        },
        OpOf::DsLoadB128 { dst, vaddr, offset } => OpOf::DsLoadB128 {
            dst: rename_vreg(*dst, delta, set),
            vaddr: rename_vreg(*vaddr, delta, set),
            offset: *offset,
        },
        OpOf::DsLoadU16 { dst, vaddr, offset } => OpOf::DsLoadU16 {
            dst: rename_vreg(*dst, delta, set),
            vaddr: rename_vreg(*vaddr, delta, set),
            offset: *offset,
        },
        OpOf::DsLoadU16D16 { dst, vaddr, offset } => OpOf::DsLoadU16D16 {
            dst: rename_vreg(*dst, delta, set),
            vaddr: rename_vreg(*vaddr, delta, set),
            offset: *offset,
        },
        OpOf::DsLoadU16D16Hi { dst, vaddr, offset } => OpOf::DsLoadU16D16Hi {
            dst: rename_vreg(*dst, delta, set),
            vaddr: rename_vreg(*vaddr, delta, set),
            offset: *offset,
        },
        OpOf::VAddF32 { dst, src0, src1 } => OpOf::VAddF32 {
            dst: rename_vreg(*dst, delta, set),
            src0: rename_operand(*src0, delta, set),
            src1: rename_operand(*src1, delta, set),
        },
        OpOf::VMulF32 { dst, src0, src1 } => OpOf::VMulF32 {
            dst: rename_vreg(*dst, delta, set),
            src0: rename_operand(*src0, delta, set),
            src1: rename_operand(*src1, delta, set),
        },
        OpOf::VSubF32 { dst, src0, src1 } => OpOf::VSubF32 {
            dst: rename_vreg(*dst, delta, set),
            src0: rename_operand(*src0, delta, set),
            src1: rename_operand(*src1, delta, set),
        },
        OpOf::VMaxF32 { dst, src0, src1 } => OpOf::VMaxF32 {
            dst: rename_vreg(*dst, delta, set),
            src0: rename_operand(*src0, delta, set),
            src1: rename_operand(*src1, delta, set),
        },
        OpOf::VMinF32 { dst, src0, src1 } => OpOf::VMinF32 {
            dst: rename_vreg(*dst, delta, set),
            src0: rename_operand(*src0, delta, set),
            src1: rename_operand(*src1, delta, set),
        },
        OpOf::VMinU32 { dst, src0, src1 } => OpOf::VMinU32 {
            dst: rename_vreg(*dst, delta, set),
            src0: rename_operand(*src0, delta, set),
            src1: rename_operand(*src1, delta, set),
        },
        OpOf::VAddU32 { dst, src0, src1 } => OpOf::VAddU32 {
            dst: rename_vreg(*dst, delta, set),
            src0: rename_operand(*src0, delta, set),
            src1: rename_operand(*src1, delta, set),
        },
        OpOf::VSubU32 { dst, src0, src1 } => OpOf::VSubU32 {
            dst: rename_vreg(*dst, delta, set),
            src0: rename_operand(*src0, delta, set),
            src1: rename_operand(*src1, delta, set),
        },
        OpOf::VAndB32 { dst, src0, src1 } => OpOf::VAndB32 {
            dst: rename_vreg(*dst, delta, set),
            src0: rename_operand(*src0, delta, set),
            src1: rename_operand(*src1, delta, set),
        },
        OpOf::VOrB32 { dst, src0, src1 } => OpOf::VOrB32 {
            dst: rename_vreg(*dst, delta, set),
            src0: rename_operand(*src0, delta, set),
            src1: rename_operand(*src1, delta, set),
        },
        OpOf::VXorB32 { dst, src0, src1 } => OpOf::VXorB32 {
            dst: rename_vreg(*dst, delta, set),
            src0: rename_operand(*src0, delta, set),
            src1: rename_operand(*src1, delta, set),
        },
        OpOf::VFmaF32 { dst, src0, src1, src2 } => OpOf::VFmaF32 {
            dst: rename_vreg(*dst, delta, set),
            src0: rename_operand(*src0, delta, set),
            src1: rename_operand(*src1, delta, set),
            src2: rename_operand(*src2, delta, set),
        },
        OpOf::VMov { dst, src } => OpOf::VMov {
            dst: rename_vreg(*dst, delta, set),
            src: rename_operand(*src, delta, set),
        },
        OpOf::VMovFromSgpr { dst, src } => OpOf::VMovFromSgpr {
            dst: rename_vreg(*dst, delta, set),
            src: *src,
        },
        OpOf::VMulLoU32 { dst, src0, src1 } => OpOf::VMulLoU32 {
            dst: rename_vreg(*dst, delta, set),
            src0: rename_vreg(*src0, delta, set),
            src1: rename_vreg(*src1, delta, set),
        },
        OpOf::VLshlrevB32 { dst, shift, src } => OpOf::VLshlrevB32 {
            dst: rename_vreg(*dst, delta, set),
            shift: *shift,
            src: rename_vreg(*src, delta, set),
        },
        OpOf::VLshrrevB32 { dst, shift, src } => OpOf::VLshrrevB32 {
            dst: rename_vreg(*dst, delta, set),
            shift: *shift,
            src: rename_vreg(*src, delta, set),
        },
        OpOf::VLshrrevB32Vgpr { dst, shift, src } => OpOf::VLshrrevB32Vgpr {
            dst: rename_vreg(*dst, delta, set),
            shift: rename_vreg(*shift, delta, set),
            src: rename_vreg(*src, delta, set),
        },
        OpOf::VAndOrB32 { dst, src0, literal, src2 } => OpOf::VAndOrB32 {
            dst: rename_vreg(*dst, delta, set),
            src0: rename_vreg(*src0, delta, set),
            literal: *literal,
            src2: rename_vreg(*src2, delta, set),
        },
        OpOf::VReadfirstlane { dst, src } => OpOf::VReadfirstlane {
            dst: *dst,
            src: rename_vreg(*src, delta, set),
        },
        OpOf::CvtPkBf16F32 { dst, src0, src1 } => OpOf::CvtPkBf16F32 {
            dst: rename_vreg(*dst, delta, set),
            src0: rename_vreg(*src0, delta, set),
            src1: rename_vreg(*src1, delta, set),
        },
        OpOf::VCvtF32U32 { dst, src } => OpOf::VCvtF32U32 {
            dst: rename_vreg(*dst, delta, set),
            src: rename_vreg(*src, delta, set),
        },
        OpOf::VCvtU32F32 { dst, src } => OpOf::VCvtU32F32 {
            dst: rename_vreg(*dst, delta, set),
            src: rename_vreg(*src, delta, set),
        },
        OpOf::VPermlanex16B32 { dst, src } => OpOf::VPermlanex16B32 {
            dst: rename_vreg(*dst, delta, set),
            src: rename_vreg(*src, delta, set),
        },
        OpOf::VRsqF32 { dst, src } => OpOf::VRsqF32 {
            dst: rename_vreg(*dst, delta, set),
            src: rename_vreg(*src, delta, set),
        },
        OpOf::VExpF32 { dst, src } => OpOf::VExpF32 {
            dst: rename_vreg(*dst, delta, set),
            src: rename_vreg(*src, delta, set),
        },
        OpOf::VSinF32 { dst, src } => OpOf::VSinF32 {
            dst: rename_vreg(*dst, delta, set),
            src: rename_vreg(*src, delta, set),
        },
        OpOf::VCosF32 { dst, src } => OpOf::VCosF32 {
            dst: rename_vreg(*dst, delta, set),
            src: rename_vreg(*src, delta, set),
        },
        OpOf::VRcpF32 { dst, src } => OpOf::VRcpF32 {
            dst: rename_vreg(*dst, delta, set),
            src: rename_vreg(*src, delta, set),
        },
        OpOf::VSqrtF32 { dst, src } => OpOf::VSqrtF32 {
            dst: rename_vreg(*dst, delta, set),
            src: rename_vreg(*src, delta, set),
        },
        OpOf::VLog2F32 { dst, src } => OpOf::VLog2F32 {
            dst: rename_vreg(*dst, delta, set),
            src: rename_vreg(*src, delta, set),
        },
        OpOf::VAddCo { dst, src0, src1 } => OpOf::VAddCo {
            dst: rename_vreg(*dst, delta, set),
            src0: rename_vreg(*src0, delta, set),
            src1: rename_vreg(*src1, delta, set),
        },
        OpOf::VAddCoCi { dst, src } => OpOf::VAddCoCi {
            dst: rename_vreg(*dst, delta, set),
            src: rename_vreg(*src, delta, set),
        },
        OpOf::VAddCOU32 { dst, src0, src1 } => OpOf::VAddCOU32 {
            dst: rename_vreg(*dst, delta, set),
            src0: rename_vreg(*src0, delta, set),
            src1: rename_vreg(*src1, delta, set),
        },
        OpOf::VAddCCU32 { dst, src } => OpOf::VAddCCU32 {
            dst: rename_vreg(*dst, delta, set),
            src: rename_vreg(*src, delta, set),
        },
        OpOf::VCmpLtU32 { src0, src1 } => OpOf::VCmpLtU32 {
            src0: rename_operand(*src0, delta, set),
            src1: rename_operand(*src1, delta, set),
        },
        OpOf::VCmpGeU32 { src0, src1 } => OpOf::VCmpGeU32 {
            src0: rename_operand(*src0, delta, set),
            src1: rename_operand(*src1, delta, set),
        },
        OpOf::VCmpGtU32 { src0, src1 } => OpOf::VCmpGtU32 {
            src0: rename_operand(*src0, delta, set),
            src1: rename_operand(*src1, delta, set),
        },
        OpOf::VCmpEqU32 { src0, src1 } => OpOf::VCmpEqU32 {
            src0: rename_operand(*src0, delta, set),
            src1: rename_operand(*src1, delta, set),
        },
        OpOf::VCmpEqF32 { src0, src1 } => OpOf::VCmpEqF32 {
            src0: rename_operand(*src0, delta, set),
            src1: rename_operand(*src1, delta, set),
        },
        OpOf::VCmpGtF32 { src0, src1 } => OpOf::VCmpGtF32 {
            src0: rename_operand(*src0, delta, set),
            src1: rename_operand(*src1, delta, set),
        },
        OpOf::VCmpLtF32 { src0, src1 } => OpOf::VCmpLtF32 {
            src0: rename_operand(*src0, delta, set),
            src1: rename_operand(*src1, delta, set),
        },
        OpOf::VCmpGeF32 { src0, src1 } => OpOf::VCmpGeF32 {
            src0: rename_operand(*src0, delta, set),
            src1: rename_operand(*src1, delta, set),
        },
        OpOf::VCmpGtF32Imm0 { src } => OpOf::VCmpGtF32Imm0 {
            src: rename_vreg(*src, delta, set),
        },
        OpOf::VCmpGtU32Imm { src, imm } => OpOf::VCmpGtU32Imm {
            src: rename_vreg(*src, delta, set),
            imm: *imm,
        },
        OpOf::VCmpEqU32Imm { src, imm } => OpOf::VCmpEqU32Imm {
            src: rename_vreg(*src, delta, set),
            imm: *imm,
        },
        OpOf::VCmpGeI32 { src0, src1 } => OpOf::VCmpGeI32 {
            src0: rename_vreg(*src0, delta, set),
            src1: rename_vreg(*src1, delta, set),
        },
        OpOf::VCndmaskB32 { dst, src_false, src_true } => OpOf::VCndmaskB32 {
            dst: rename_vreg(*dst, delta, set),
            src_false: rename_operand(*src_false, delta, set),
            src_true: rename_operand(*src_true, delta, set),
        },
        OpOf::Wmma { dst, a, b, c, format } => OpOf::Wmma {
            dst: rename_vreg(*dst, delta, set),
            a: rename_vreg(*a, delta, set),
            b: rename_vreg(*b, delta, set),
            c: rename_vreg(*c, delta, set),
            format: *format,
        },
        OpOf::DsSwizzle { dst, src, offset } => OpOf::DsSwizzle {
            dst: rename_vreg(*dst, delta, set),
            src: rename_vreg(*src, delta, set),
            offset: *offset,
        },
        OpOf::WaveReduceAddF32 { val, tmp } => OpOf::WaveReduceAddF32 {
            val: rename_vreg(*val, delta, set),
            tmp: rename_vreg(*tmp, delta, set),
        },
        OpOf::WaveReduceMaxF32 { val, tmp } => OpOf::WaveReduceMaxF32 {
            val: rename_vreg(*val, delta, set),
            tmp: rename_vreg(*tmp, delta, set),
        },
        OpOf::WaveReduceMinF32 { val, tmp } => OpOf::WaveReduceMinF32 {
            val: rename_vreg(*val, delta, set),
            tmp: rename_vreg(*tmp, delta, set),
        },
        OpOf::ComputeGlobalIdX { dst, wg_size } => OpOf::ComputeGlobalIdX {
            dst: rename_vreg(*dst, delta, set),
            wg_size: *wg_size,
        },
        OpOf::ReadShaderCycles { dst } => OpOf::ReadShaderCycles {
            dst: rename_vreg(*dst, delta, set),
        },
        other => other.clone(),
    }
}

/// Whether an operation reads a vector register.
pub open spec fn reads_vreg(op: Op, id: u32) -> bool {
    op_vreg_uses(op).contains(VReg(id))
}

/// Whether an operation writes a vector register.
pub open spec fn writes_vreg(op: Op, id: u32) -> bool {
    op_vreg_defs(op).contains(VReg(id))
}

/// Consecutive registers that are named by the first of them.
pub open spec fn wide_vregs(base: VReg, n: nat) -> Seq<VReg> {
    if n > 1 {
        vregs(base, n)
    } else {
        Seq::empty()
    }
}

/// The vector registers that an operation names together with others, by the first of them.
pub open spec fn op_group_vregs(op: Op) -> Seq<VReg> {
    match op {
        OpOf::GlobalLoad { dst, addr, width, .. } => vregs(addr, 2) + wide_vregs(dst, width.regs()),
        OpOf::GlobalStore { addr, src, width, .. } => vregs(addr, 2) + wide_vregs(
            src,
            width.regs(),
        ),
        OpOf::BufferLoad { dst, width, .. } => wide_vregs(dst, width.regs()),
        OpOf::BufferStore { src, width, .. } => wide_vregs(src, width.regs()),
        OpOf::GlobalAtomicAddF32 { addr, .. } => vregs(addr, 2),
        OpOf::GlobalAtomicAddU32Rtn { addr, .. } => vregs(addr, 2),
        OpOf::LdsLoad { dst, width, .. } => wide_vregs(dst, width.regs()),
        OpOf::LdsStore { src, width, .. } => wide_vregs(src, width.regs()),
        OpOf::DsStoreB64 { src, .. } => vregs(src, 2),
        OpOf::DsStoreB128 { src, .. } => vregs(src, 4),
        OpOf::DsLoadB64 { dst, .. } => vregs(dst, 2),
        OpOf::DsLoadB128 { dst, .. } => vregs(dst, 4),
        OpOf::Wmma { dst, a, b, c, .. } => vregs(dst, 8) + vregs(a, 8) + vregs(b, 8) + vregs(c, 8),
        _ => Seq::empty(),
    }
}

/// Whether an operation changes which lanes take part, or is text that is not read.
pub open spec fn hides_lanes(op: Op) -> bool {
    op is SaveExec || op is RestoreExec || op is XorExec || op is RawAsm
}

/// Whether an operation of `[from, to)` writes a register.
pub open spec fn defined_in(ops: Seq<Op>, from: int, to: int, id: u32) -> bool {
    exists|k: int| from <= k < to && writes_vreg(#[trigger] ops[k], id)
}

/// Whether the operation at `k` needs a register under its own name: it reads what no
/// operation of the body `[from, to)` wrote before it, or reads it outside the body, or names
/// it together with others.
pub open spec fn keeps_name(ops: Seq<Op>, from: int, to: int, k: int, id: u32) -> bool {
    ||| op_group_vregs(ops[k]).contains(VReg(id))
    ||| reads_vreg(ops[k], id) && !(from <= k < to && defined_in(ops, from, k, id))
}

/// The registers that each copy of the body `[from, to)` can have for its own: the body
/// writes them, reads them only behind that, for the same lanes, and nothing else reads them.
pub open spec fn private_ids(ops: Seq<Op>, from: int, to: int) -> Set<u32> {
    Set::new(
        |id: u32|
            {
                &&& defined_in(ops, from, to, id)
                &&& forall|k: int| from <= k < to ==> !hides_lanes(#[trigger] ops[k])
                &&& forall|k: int|
                    0 <= k < ops.len() ==> !#[trigger] keeps_name(ops, from, to, k, id)
            },
    )
}

/// A body whose registers of the set are moved by `offset`.
pub open spec fn renamed_body(body: Seq<Op>, offset: u32, set: Set<u32>) -> Seq<Op> {
    body.map_values(|op: Op| renamed_op(op, offset, set))
}

/// The first `n` copies of a body, each followed by the loop's increment, with the loop's
/// test in front of each but the first. The first copy is the body itself; in copy `k` the
/// registers of the set are moved by `k * stride`.
pub open spec fn copies(
    test: Seq<Op>,
    body: Seq<Op>,
    latch: Op,
    n: nat,
    stride: nat,
    set: Set<u32>,
) -> Seq<Op>
    decreases n,
{
    if n == 0 {
        Seq::empty()
    } else if n == 1 {
        body.push(latch)
    } else {
        copies(test, body, latch, (n - 1) as nat, stride, set) + test + renamed_body(
            body,
            (stride * (n - 1)) as u32,
            set,
        ).push(latch)
    }
}

/// How many copies of its body the loop from header `h` to back edge `i` gets, if it is
/// unrolled: its body is small and safe, and the renamed registers have numbers.
pub open spec fn unroll_copies(ops: Seq<Op>, h: int, i: int) -> nat {
    let n = copies_for((i - 1 - (h + 3)) as nat);
    if n > 1 && safe_to_unroll(ops, h + 3, i - 1) && n * (max_vreg(ops) + 1) - 1 <= u32::MAX {
        n
    } else {
        1
    }
}

/// The operations with the loop from header `h` to back edge `i` unrolled, if it can be: the
/// test at the header is repeated between the copies, so that the loop is left after as many
/// rounds as before.
pub open spec fn unroll_one(ops: Seq<Op>, h: int, i: int) -> Seq<Op> {
    let n = unroll_copies(ops, h, i);
    if n > 1 {
        ops.take(h + 3) + copies(
            ops.subrange(h + 1, h + 3),
            ops.subrange(h + 3, i - 1),
            ops[i - 1],
            n,
            max_vreg(ops) + 1,
            private_ids(ops, h + 3, i - 1),
        ) + seq![ops[i]] + ops.skip(i + 1)
    } else {
        ops
    }
}

/// The header of the loop that the operation at `i` closes.
pub open spec fn header_of(ops: Seq<Op>, i: int) -> int {
    match ops[i] {
        OpOf::Branch(target) => match label_pos(ops, ops.len() as int, target@) {
            Some(h) => h,
            None => 0,
        },
        _ => 0,
    }
}

/// Headers and back edges of the counted loops, in the order of the back edges.
pub open spec fn loop_spans(ops: Seq<Op>) -> Seq<(int, int)> {
    backedges(ops, ops.len() as int).map_values(|i: int| (header_of(ops, i), i))
}

/// The operations with the given loops unrolled, the last one first, and how many of them
/// were.
pub open spec fn unroll_spans(ops: Seq<Op>, spans: Seq<(int, int)>) -> (Seq<Op>, nat)
    decreases spans.len(),
{
    if spans.len() == 0 {
        (ops, 0)
    } else {
        let (h, i) = spans.last();
        let rest = unroll_spans(unroll_one(ops, h, i), spans.drop_last());
        (rest.0, rest.1 + if unroll_copies(ops, h, i) > 1 {
            1nat
        } else {
            0
        })
    }
}

/// Appends clones of the operations of `[from, to)`.
pub(crate) fn push_range(out: &mut Vec<Op>, ops: &Vec<Op>, from: usize, to: usize)
    requires
        from <= to <= ops@.len(),
    ensures
        final(out)@ == old(out)@ + ops@.subrange(from as int, to as int),
{
    let mut i: usize = from;
    while i < to
        invariant
            from <= i <= to <= ops@.len(),
            out@ == old(out)@ + ops@.subrange(from as int, i as int),
        decreases to - i,
    {
        out.push(ops[i].clone());
        i = i + 1;
        assert(ops@.subrange(from as int, i as int) =~= ops@.subrange(from as int, i - 1).push(
            ops@[i - 1],
        ));
    }
}

/// Adds registers to a set.
pub(crate) fn insert_regs(set: &mut HashSet<u32>, regs: &Vec<VReg>)
    ensures
        forall|id: u32| #[trigger]
            final(set)@.contains(id) <==> old(set)@.contains(id) || regs@.contains(VReg(id)),
{
    let mut k: usize = 0;
    while k < regs.len()
        invariant
            k <= regs.len(),
            forall|id: u32| #[trigger]
                set@.contains(id) <==> old(set)@.contains(id) || regs@.take(k as int).contains(
                    VReg(id),
                ),
        decreases regs.len() - k,
    {
        let d: VReg = regs[k];
        set.insert(d.0);
        k = k + 1;
        proof {
            assert(regs@.take(k as int) =~= regs@.take(k - 1).push(d));
            assert forall|id: u32| #[trigger] set@.contains(id) <==> old(set)@.contains(id)
                || regs@.take(k as int).contains(VReg(id)) by {
                if id == d.0 {
                    assert(regs@.take(k as int).last() == VReg(id));
                }
                if regs@.take(k - 1).contains(VReg(id)) {
                    let j = choose|j: int|
                        0 <= j < k - 1 && (#[trigger] regs@.take(k - 1)[j]) == VReg(id);
                    assert(regs@.take(k as int)[j] == VReg(id));
                }
            }
        }
    }
    assert(regs@.take(k as int) =~= regs@);
}

/// Adds to a set those registers that another set does not hold.
fn insert_others(set: &mut HashSet<u32>, regs: &Vec<VReg>, known: &HashSet<u32>)
    ensures
        forall|id: u32| #[trigger]
            final(set)@.contains(id) <==> old(set)@.contains(id) || (regs@.contains(VReg(id))
                && !known@.contains(id)),
{
    let mut k: usize = 0;
    while k < regs.len()
        invariant
            k <= regs.len(),
            forall|id: u32| #[trigger]
                set@.contains(id) <==> old(set)@.contains(id) || (regs@.take(k as int).contains(
                    VReg(id),
                ) && !known@.contains(id)),
        decreases regs.len() - k,
    {
        let d: VReg = regs[k];
        if !known.contains(&d.0) {
            set.insert(d.0);
        }
        k = k + 1;
        proof {
            assert(regs@.take(k as int) =~= regs@.take(k - 1).push(d));
            assert forall|id: u32| #[trigger] set@.contains(id) <==> old(set)@.contains(id) || (
            regs@.take(k as int).contains(VReg(id)) && !known@.contains(id)) by {
                if id == d.0 {
                    assert(regs@.take(k as int).last() == VReg(id));
                }
                if regs@.take(k - 1).contains(VReg(id)) {
                    let j = choose|j: int|
                        0 <= j < k - 1 && (#[trigger] regs@.take(k - 1)[j]) == VReg(id);
                    assert(regs@.take(k as int)[j] == VReg(id));
                }
            }
        }
    }
    assert(regs@.take(k as int) =~= regs@);
}

/// The vector registers that an operation names together with others, by the first of them.
fn group_vregs(op: &Op) -> (r: Vec<VReg>)
    ensures
        r@ == op_group_vregs(*op),
{
    let mut r: Vec<VReg> = Vec::new();
    match op {
        OpOf::GlobalLoad { dst, addr, width, .. } => {
            push_vregs(&mut r, *addr, 2);
            let n: u32 = width.vreg_count();
            if n > 1 {
                push_vregs(&mut r, *dst, n);
            }
        },
        OpOf::GlobalStore { addr, src, width, .. } => {
            push_vregs(&mut r, *addr, 2);
            let n: u32 = width.vreg_count();
            if n > 1 {
                push_vregs(&mut r, *src, n);
            }
        },
        OpOf::BufferLoad { dst, width, .. } => {
            let n: u32 = width.vreg_count();
            if n > 1 {
                push_vregs(&mut r, *dst, n);
            }
        },
        OpOf::BufferStore { src, width, .. } => {
            let n: u32 = width.vreg_count();
            if n > 1 {
                push_vregs(&mut r, *src, n);
            }
        },
        OpOf::GlobalAtomicAddF32 { addr, .. } => {
            push_vregs(&mut r, *addr, 2);
        },
        OpOf::GlobalAtomicAddU32Rtn { addr, .. } => {
            push_vregs(&mut r, *addr, 2);
        },
        OpOf::LdsLoad { dst, width, .. } => {
            let n: u32 = width.vreg_count();
            if n > 1 {
                push_vregs(&mut r, *dst, n);
            }
        },
        OpOf::LdsStore { src, width, .. } => {
            let n: u32 = width.vreg_count();
            if n > 1 {
                push_vregs(&mut r, *src, n);
            }
        },
        OpOf::DsStoreB64 { src, .. } => {
            push_vregs(&mut r, *src, 2);
        },
        OpOf::DsStoreB128 { src, .. } => {
            push_vregs(&mut r, *src, 4);
        },
        OpOf::DsLoadB64 { dst, .. } => {
            push_vregs(&mut r, *dst, 2);
        },
        OpOf::DsLoadB128 { dst, .. } => {
            push_vregs(&mut r, *dst, 4);
        },
        OpOf::Wmma { dst, a, b, c, .. } => {
            push_vregs(&mut r, *dst, 8);
            push_vregs(&mut r, *a, 8);
            push_vregs(&mut r, *b, 8);
            push_vregs(&mut r, *c, 8);
        },
        _ => {},
    }
    assert(r@ =~= op_group_vregs(*op));
    r
}

/// The registers that operations need under their own names.
fn collect_kept(ops: &Vec<Op>, from: usize, to: usize) -> (r: HashSet<u32>)
    requires
        from <= to <= ops@.len(),
    ensures
        forall|id: u32| #[trigger]
            r@.contains(id) <==> exists|k: int|
                0 <= k < ops@.len() && #[trigger] keeps_name(ops@, from as int, to as int, k, id),
{
    let mut kept: HashSet<u32> = HashSet::new();
    let mut written: HashSet<u32> = HashSet::new();
    let mut i: usize = 0;
    while i < ops.len()
        invariant
            i <= ops.len(),
            from <= to <= ops@.len(),
            forall|id: u32| #[trigger]
                kept@.contains(id) <==> exists|k: int|
                    0 <= k < i && #[trigger] keeps_name(ops@, from as int, to as int, k, id),
            i <= to ==> forall|id: u32| #[trigger]
                written@.contains(id) <==> defined_in(ops@, from as int, i as int, id),
        decreases ops.len() - i,
    {
        let ghost before = kept@;
        let ghost before_written = written@;
        let uses = ops[i].vreg_uses();
        let groups = group_vregs(&ops[i]);
        let inside: bool = from <= i && i < to;
        insert_regs(&mut kept, &groups);
        if inside {
            insert_others(&mut kept, &uses, &written);
            let defs = ops[i].vreg_defs();
            insert_regs(&mut written, &defs);
        } else {
            insert_regs(&mut kept, &uses);
        }
        proof {
            let f = from as int;
            let t = to as int;
            assert forall|id: u32| #[trigger] kept@.contains(id) <==> exists|k: int|
                0 <= k < i + 1 && #[trigger] keeps_name(ops@, f, t, k, id) by {
                assert(kept@.contains(id) <==> before.contains(id) || keeps_name(
                    ops@,
                    f,
                    t,
                    i as int,
                    id,
                ));
                if before.contains(id) {
                    let k = choose|k: int| 0 <= k < i && #[trigger] keeps_name(ops@, f, t, k, id);
                    assert(keeps_name(ops@, f, t, k, id));
                }
            }
            if i + 1 <= to {
                assert forall|id: u32| #[trigger] written@.contains(id) <==> defined_in(
                    ops@,
                    f,
                    i + 1,
                    id,
                ) by {
                    if inside {
                        lemma_defined_step(ops@, f, i as int, id);
                        assert(before_written.contains(id) <==> defined_in(ops@, f, i as int, id));
                    } else {
                        assert(!before_written.contains(id)) by {
                            assert(!defined_in(ops@, f, i as int, id));
                        }
                    }
                }
            }
        }
        i = i + 1;
    }
    kept
}

/// One more operation writes what it writes.
proof fn lemma_defined_step(ops: Seq<Op>, from: int, k: int, id: u32)
    requires
        from <= k,
    ensures
        defined_in(ops, from, k + 1, id) <==> defined_in(ops, from, k, id) || writes_vreg(
            ops[k],
            id,
        ),
{
    if defined_in(ops, from, k, id) {
        let j = choose|j: int| from <= j < k && writes_vreg(#[trigger] ops[j], id);
        assert(writes_vreg(ops[j], id));
    }
    if writes_vreg(ops[k], id) {
        assert(from <= k < k + 1 && writes_vreg(ops[k], id));
    }
}

/// The registers that each copy of the body `[from, to)` can have for its own.
fn collect_private(ops: &Vec<Op>, from: usize, to: usize) -> (r: HashSet<u32>)
    requires
        from <= to <= ops@.len(),
    ensures
        r@ =~= private_ids(ops@, from as int, to as int),
{
    let kept = collect_kept(ops, from, to);
    let mut set: HashSet<u32> = HashSet::new();
    let mut i: usize = from;
    while i < to
        invariant
            from <= i <= to <= ops@.len(),
            forall|k: int| from <= k < i ==> !hides_lanes(#[trigger] ops@[k]),
            forall|id: u32| #[trigger]
                set@.contains(id) <==> defined_in(ops@, from as int, i as int, id)
                    && !kept@.contains(id),
        decreases to - i,
    {
        if matches!(&ops[i], OpOf::SaveExec { .. } | OpOf::RestoreExec { .. }
            | OpOf::XorExec { .. } | OpOf::RawAsm(_)) {
            let none: HashSet<u32> = HashSet::new();
            proof {
                assert(hides_lanes(ops@[i as int]));
                assert(none@ =~= private_ids(ops@, from as int, to as int));
            }
            return none;
        }
        let ghost before = set@;
        let defs = ops[i].vreg_defs();
        insert_others(&mut set, &defs, &kept);
        proof {
            assert forall|id: u32| #[trigger] set@.contains(id) <==> defined_in(
                ops@,
                from as int,
                i + 1,
                id,
            ) && !kept@.contains(id) by {
                lemma_defined_step(ops@, from as int, i as int, id);
                assert(before.contains(id) <==> defined_in(ops@, from as int, i as int, id)
                    && !kept@.contains(id));
            }
        }
        i = i + 1;
    }
    assert(set@ =~= private_ids(ops@, from as int, to as int));
    set
}

/// The registers that operations write are among those that they name.
proof fn lemma_private_bounded(ops: Seq<Op>, from: int, to: int)
    requires
        0 <= from <= to <= ops.len(),
    ensures
        forall|id: u32| #[trigger] private_ids(ops, from, to).contains(id) ==> id <= max_vreg(ops),
{
    max_vreg_is_largest(ops);
    assert forall|id: u32|
        #[trigger] private_ids(ops, from, to).contains(id) implies id <= max_vreg(ops) by {
        let k = choose|k: int| from <= k < to && writes_vreg(#[trigger] ops[k], id);
        let j = choose|j: int|
            0 <= j < op_vreg_defs(ops[k]).len() && op_vreg_defs(ops[k])[j] == VReg(id);
        assert(op_vreg_refs(ops[k])[op_vreg_uses(ops[k]).len() + j] == VReg(id));
    }
}

/// The copies of a loop body.
fn build_copies(
    ops: &Vec<Op>,
    test: usize,
    body_start: usize,
    latch: usize,
    n: usize,
    stride: u32,
    set: &HashSet<u32>,
) -> (r: Vec<Op>)
    requires
        test <= body_start <= latch < ops@.len(),
        1 <= n <= 4,
        forall|id: u32| #[trigger] set@.contains(id) ==> id < stride,
        n * stride <= u32::MAX + 1,
    ensures
        r@ == copies(
            ops@.subrange(test as int, body_start as int),
            ops@.subrange(body_start as int, latch as int),
            ops@[latch as int],
            n as nat,
            stride as nat,
            set@,
        ),
{
    let ghost body = ops@.subrange(body_start as int, latch as int);
    let ghost tests = ops@.subrange(test as int, body_start as int);
    let mut out: Vec<Op> = Vec::new();
    push_range(&mut out, ops, body_start, latch);
    out.push(ops[latch].clone());
    assert(out@ =~= body.push(ops@[latch as int]));
    let mut c: usize = 1;
    while c < n
        invariant
            1 <= c <= n <= 4,
            test <= body_start <= latch < ops@.len(),
            body == ops@.subrange(body_start as int, latch as int),
            tests == ops@.subrange(test as int, body_start as int),
            forall|id: u32| #[trigger] set@.contains(id) ==> id < stride,
            n * stride <= u32::MAX + 1,
            out@ == copies(tests, body, ops@[latch as int], c as nat, stride as nat, set@),
        decreases n - c,
    {
        assert(stride * c + stride <= u32::MAX + 1) by (nonlinear_arith)
            requires
                c < n,
                n * stride <= u32::MAX + 1,
                stride >= 0,
        ;
        let offset: u32 = (stride as u64 * c as u64) as u32;
        push_range(&mut out, ops, test, body_start);
        let ghost start = out@;
        let mut i: usize = body_start;
        while i < latch
            invariant
                body_start <= i <= latch < ops@.len(),
                body == ops@.subrange(body_start as int, latch as int),
                forall|id: u32| #[trigger] set@.contains(id) ==> id + offset <= u32::MAX,
                out@ == start + renamed_body(body, offset, set@).take(i - body_start),
            decreases latch - i,
        {
            out.push(rename_op_vregs(&ops[i], offset, set));
            i = i + 1;
            assert(renamed_body(body, offset, set@).take(i - body_start) =~= renamed_body(
                body,
                offset,
                set@,
            ).take(i - 1 - body_start).push(renamed_op(ops@[i - 1], offset, set@)));
        }
        assert(renamed_body(body, offset, set@).take(latch - body_start) =~= renamed_body(
            body,
            offset,
            set@,
        ));
        out.push(ops[latch].clone());
        c = c + 1;
        assert(out@ =~= copies(tests, body, ops@[latch as int], c as nat, stride as nat, set@));
    }
    out
}

/// Whether `n` copies have numbers for their registers.
fn copies_fit(n: usize, max_v: u32) -> (r: bool)
    requires
        1 <= n <= 4,
    ensures
        r == (n * (max_v + 1) - 1 <= u32::MAX),
{
    assert(1 <= n * (max_v + 1) <= 4 * 0x1_0000_0000) by (nonlinear_arith)
        requires
            1 <= n <= 4,
            0 <= max_v <= 0xFFFF_FFFF,
    ;
    let total: u64 = n as u64 * (max_v as u64 + 1);
    total - 1 <= u32::MAX as u64
}

/// Unrolls the loop from header `h` to back edge `i`, if it can be.
fn unroll_loop(ops: Vec<Op>, h: usize, i: usize) -> (r: (Vec<Op>, bool))
    requires
        h + 3 < i - 1,
        i < ops.len(),
    ensures
        r.0@ == unroll_one(ops@, h as int, i as int),
        r.1 == (unroll_copies(ops@, h as int, i as int) > 1),
{
    let body_start: usize = h + 3;
    let latch: usize = i - 1;
    let n: usize = unroll_factor(latch - body_start);
    if n <= 1 || !is_safe_to_unroll(ops.as_slice(), body_start, latch) {
        return (ops, false);
    }
    let max_v: u32 = max_vreg_in_ops(ops.as_slice());
    if !copies_fit(n, max_v) {
        return (ops, false);
    }
    let set = collect_private(&ops, body_start, latch);
    proof {
        lemma_private_bounded(ops@, body_start as int, latch as int);
        assert(2 * (max_v + 1) <= n * (max_v + 1)) by (nonlinear_arith)
            requires
                n >= 2,
        ;
    }
    let stride: u32 = max_v + 1;
    let mut unrolled = build_copies(&ops, h + 1, body_start, latch, n, stride, &set);
    let mut out: Vec<Op> = Vec::new();
    push_range(&mut out, &ops, 0, body_start);
    out.append(&mut unrolled);
    out.push(ops[i].clone());
    push_range(&mut out, &ops, i + 1, ops.len());
    assert(set@ =~= private_ids(ops@, body_start as int, latch as int));
    assert(out@ =~= unroll_one(ops@, h as int, i as int));
    (out, true)
}

proof fn lemma_unroll_grows(ops: Seq<Op>, h: int, i: int)
    requires
        0 <= h,
        h + 3 < i - 1,
        i < ops.len(),
    ensures
        unroll_one(ops, h, i).len() == ops.len() + (unroll_copies(ops, h, i) - 1) * (i - 1 - (h + 3)
            + 3),
        unroll_one(ops, h, i).len() >= ops.len(),
{
    let body = ops.subrange(h + 3, i - 1);
    let n = unroll_copies(ops, h, i);
    lemma_copies_len(
        ops.subrange(h + 1, h + 3),
        body,
        ops[i - 1],
        n,
        max_vreg(ops) + 1,
        private_ids(ops, h + 3, i - 1),
    );
    let w = body.len() + 3;
    assert((n - 1) * w >= 0) by (nonlinear_arith)
        requires
            n >= 1,
            w >= 0,
    ;
}

proof fn lemma_copies_len(
    test: Seq<Op>,
    body: Seq<Op>,
    latch: Op,
    n: nat,
    stride: nat,
    set: Set<u32>,
)
    requires
        n > 0,
        test.len() == 2,
    ensures
        copies(test, body, latch, n, stride, set).len() == body.len() + 1 + (n - 1) * (body.len()
            + 3),
    decreases n,
{
    let w = body.len() + 3;
    if n == 1 {
        assert(0 * w == 0);
    } else {
        lemma_copies_len(test, body, latch, (n - 1) as nat, stride, set);
        assert((n - 1) * w == (n - 2) * w + w) by (nonlinear_arith);
    }
}

/// A loop of `b` operations that is unrolled into `n` copies makes the code longer by
/// `n - 1` tests, bodies and increments; everything outside the loop body stays.
pub proof fn unroll_adds_copies(ops: Seq<Op>, h: int, i: int)
    requires
        0 <= h,
        h + 3 < i - 1,
        i < ops.len(),
    ensures
        unroll_one(ops, h, i).len() == ops.len() + (unroll_copies(ops, h, i) - 1) * (i - 1 - (h + 3)
            + 3),
        unroll_one(ops, h, i).take(h + 3) == ops.take(h + 3),
        unroll_one(ops, h, i).skip(unroll_one(ops, h, i).len() - (ops.len() - i)) == ops.skip(i),
{
    lemma_unroll_grows(ops, h, i);
    assert(unroll_one(ops, h, i).take(h + 3) =~= ops.take(h + 3));
    assert(unroll_one(ops, h, i).skip(unroll_one(ops, h, i).len() - (ops.len() - i)) =~= ops.skip(
        i,
    ));
}

/// Where copy `k` of the body starts, behind the first one.
proof fn lemma_copy_at(
    test: Seq<Op>,
    body: Seq<Op>,
    latch: Op,
    n: nat,
    stride: nat,
    set: Set<u32>,
    k: nat,
)
    requires
        0 < k < n,
        test.len() == 2,
    ensures
        ({
            let all = copies(test, body, latch, n, stride, set);
            let at = k * (body.len() + 3) - 2;
            &&& 0 <= at
            &&& at + body.len() + 3 <= all.len()
            &&& all.subrange(at, at + 2) == test
            &&& all.subrange(at + 2, at + 2 + body.len()) == renamed_body(
                body,
                (stride * k) as u32,
                set,
            )
            &&& all[at + 2 + body.len()] == latch
        }),
    decreases n,
{
    let w = body.len() + 3;
    let all = copies(test, body, latch, n, stride, set);
    let init = copies(test, body, latch, (n - 1) as nat, stride, set);
    let at = k * w - 2;
    lemma_copies_len(test, body, latch, n, stride, set);
    lemma_copies_len(test, body, latch, (n - 1) as nat, stride, set);
    assert(w <= k * w <= (n - 1) * w) by (nonlinear_arith)
        requires
            0 < k < n,
            w >= 0,
    ;
    assert((n - 1) * w == (n - 2) * w + w) by (nonlinear_arith);
    let renamed = renamed_body(body, (stride * k) as u32, set);
    if k == n - 1 {
        assert(all.subrange(at, at + 2) =~= test);
        assert(all.subrange(at + 2, at + 2 + body.len()) =~= renamed);
    } else {
        lemma_copy_at(test, body, latch, (n - 1) as nat, stride, set, k);
        assert(all.subrange(at, at + 2) =~= init.subrange(at, at + 2));
        assert(all.subrange(at + 2, at + 2 + body.len()) =~= init.subrange(
            at + 2,
            at + 2 + body.len(),
        ));
    }
}

/// An unrolled loop leaves as the loop left: in front of every copy of the body stands the
/// loop's test, at the header for the first copy and repeated for each of the others, and
/// behind every copy its increment. So the loop runs as many rounds as before, also where
/// their number is no multiple of the number of copies.
#[verifier::spinoff_prover]
#[verifier::rlimit(40)]
pub proof fn unrolled_rounds_are_tested(ops: Seq<Op>, h: int, i: int, k: nat)
    requires
        0 <= h,
        h + 3 < i - 1,
        i < ops.len(),
        k < unroll_copies(ops, h, i),
        unroll_copies(ops, h, i) > 1,
    ensures
        ({
            let out = unroll_one(ops, h, i);
            let b = i - 1 - (h + 3);
            let at = h + 1 + k * (b + 3);
            &&& at + b + 3 <= out.len()
            &&& out.subrange(at, at + 2) == ops.subrange(h + 1, h + 3)
            &&& out.subrange(at + 2, at + 2 + b) == if k == 0 {
                ops.subrange(h + 3, i - 1)
            } else {
                renamed_body(
                    ops.subrange(h + 3, i - 1),
                    ((max_vreg(ops) + 1) * k) as u32,
                    private_ids(ops, h + 3, i - 1),
                )
            }
            &&& out[at + 2 + b] == ops[i - 1]
        }),
{
    let b = i - 1 - (h + 3);
    let n = unroll_copies(ops, h, i);
    let test = ops.subrange(h + 1, h + 3);
    let body = ops.subrange(h + 3, i - 1);
    let set = private_ids(ops, h + 3, i - 1);
    let stride = max_vreg(ops) + 1;
    let front = ops.take(h + 3);
    let rest = seq![ops[i]] + ops.skip(i + 1);
    let all = copies(test, body, ops[i - 1], n, stride, set);
    assert(unroll_one(ops, h, i) == front + all + rest) by {
        assert(front + all + seq![ops[i]] + ops.skip(i + 1) =~= front + all + rest);
    }
    assert(front.subrange(h + 1, h + 3) =~= test);
    lemma_copy_around(front, test, body, ops[i - 1], n, stride, set, rest, k);
}

/// Where copy `k` of the body stands among the operations around it.
#[verifier::spinoff_prover]
#[verifier::rlimit(40)]
proof fn lemma_copy_around(
    front: Seq<Op>,
    test: Seq<Op>,
    body: Seq<Op>,
    latch: Op,
    n: nat,
    stride: nat,
    set: Set<u32>,
    rest: Seq<Op>,
    k: nat,
)
    requires
        k < n,
        test.len() == 2,
        front.len() >= 2,
        front.subrange(front.len() - 2, front.len() as int) == test,
    ensures
        ({
            let out = front + copies(test, body, latch, n, stride, set) + rest;
            let b = body.len();
            let at = front.len() - 2 + k * (b + 3);
            &&& at + b + 3 <= out.len()
            &&& out.subrange(at, at + 2) == test
            &&& out.subrange(at + 2, at + 2 + b) == if k == 0 {
                body
            } else {
                renamed_body(body, (stride * k) as u32, set)
            }
            &&& out[at + 2 + b] == latch
        }),
{
    let b = body.len();
    let all = copies(test, body, latch, n, stride, set);
    let out = front + all + rest;
    let o = k * (b + 3) - 2;
    lemma_copies_len(test, body, latch, n, stride, set);
    assert(0 <= k * (b + 3) <= (n - 1) * (b + 3)) by (nonlinear_arith)
        requires
            0 <= k <= n - 1,
            b >= 0,
    ;
    if k == 0 {
        lemma_first_copy(test, body, latch, n, stride, set);
        assert(0 * (b + 3) == 0);
        assert(out.subrange(front.len() - 2, front.len() as int) =~= front.subrange(
            front.len() - 2,
            front.len() as int,
        ));
        lemma_inside(front, all, rest, 0, b as int);
        assert(all.subrange(0, b as int) =~= all.take(b as int));
    } else {
        lemma_copy_at(test, body, latch, n, stride, set, k);
        lemma_inside(front, all, rest, o, o + 2);
        lemma_inside(front, all, rest, o + 2, o + 2 + b);
    }
}

/// A part of a sequence is a part of every sequence around it.
proof fn lemma_inside(front: Seq<Op>, all: Seq<Op>, rest: Seq<Op>, x: int, y: int)
    requires
        0 <= x <= y < all.len(),
    ensures
        (front + all + rest).subrange(front.len() + x, front.len() + y) == all.subrange(x, y),
        (front + all + rest)[front.len() + y] == all[y],
{
    assert((front + all + rest).subrange(front.len() + x, front.len() + y) =~= all.subrange(x, y));
}

/// The first copy is the body itself.
proof fn lemma_first_copy(
    test: Seq<Op>,
    body: Seq<Op>,
    latch: Op,
    n: nat,
    stride: nat,
    set: Set<u32>,
)
    requires
        n > 0,
    ensures
        copies(test, body, latch, n, stride, set).len() > body.len(),
        copies(test, body, latch, n, stride, set).take(body.len() as int) == body,
        copies(test, body, latch, n, stride, set)[body.len() as int] == latch,
    decreases n,
{
    let all = copies(test, body, latch, n, stride, set);
    if n > 1 {
        lemma_first_copy(test, body, latch, (n - 1) as nat, stride, set);
        let init = copies(test, body, latch, (n - 1) as nat, stride, set);
        assert(all.take(body.len() as int) =~= init.take(body.len() as int));
    } else {
        assert(all.take(body.len() as int) =~= body);
    }
}

/// The registers of an operation that names none of the set together with others.
pub open spec fn renamed_regs(regs: Seq<VReg>, delta: u32, set: Set<u32>) -> Seq<VReg> {
    regs.map_values(|v: VReg| renamed_vreg(v, delta, set))
}

/// Registers that are named together and belong to no set are not renamed.
proof fn lemma_range_kept(
    group: Seq<VReg>,
    at: int,
    base: VReg,
    n: nat,
    delta: u32,
    set: Set<u32>,
)
    requires
        n > 0,
        0 <= at,
        at + n <= group.len(),
        group.subrange(at, at + n) =~= vregs(base, n),
        forall|id: u32| #[trigger] set.contains(id) ==> !group.contains(VReg(id)),
    ensures
        renamed_vreg(base, delta, set) == base,
        renamed_regs(vregs(base, n), delta, set) == vregs(base, n),
{
    let range = vregs(base, n);
    assert forall|i: int| 0 <= i < n implies !set.contains((#[trigger] range[i]).0) by {
        assert(group[at + i] == group.subrange(at, at + n)[i]);
        assert(group.contains(VReg(range[i].0)));
    }
    assert(range[0] == base);
    assert(renamed_regs(range, delta, set) =~= range);
}

/// Renaming reaches every register that an operation reads or writes: a renamed operation
/// reads and writes the renamed registers, and no others, where it names no register of the
/// set together with others. What it does to scalar registers and condition codes stays.
#[verifier::spinoff_prover]
#[verifier::rlimit(60)]
pub proof fn renaming_reaches_every_register(op: Op, delta: u32, set: Set<u32>)
    requires
        forall|id: u32| #[trigger]
            set.contains(id) ==> !op_group_vregs(op).contains(VReg(id)) && id + delta <= u32::MAX,
    ensures
        op_vreg_uses(renamed_op(op, delta, set)) == renamed_regs(op_vreg_uses(op), delta, set),
        op_vreg_defs(renamed_op(op, delta, set)) == renamed_regs(op_vreg_defs(op), delta, set),
        op_sreg_uses(renamed_op(op, delta, set)) == op_sreg_uses(op),
        op_sreg_defs(renamed_op(op, delta, set)) == op_sreg_defs(op),
        op_reads_vcc(renamed_op(op, delta, set)) == op_reads_vcc(op),
        op_writes_vcc(renamed_op(op, delta, set)) == op_writes_vcc(op),
{
    let to = renamed_op(op, delta, set);
    let group = op_group_vregs(op);
    match op {
        OpOf::GlobalLoad { dst, addr, width, .. } => {
            lemma_range_kept(group, 0, addr, 2, delta, set);
            if width.regs() > 1 {
                lemma_range_kept(group, 2, dst, width.regs(), delta, set);
            }
        },
        OpOf::GlobalStore { addr, src, width, .. } => {
            lemma_range_kept(group, 0, addr, 2, delta, set);
            if width.regs() > 1 {
                lemma_range_kept(group, 2, src, width.regs(), delta, set);
            }
        },
        OpOf::BufferLoad { dst, width, .. } => {
            if width.regs() > 1 {
                lemma_range_kept(group, 0, dst, width.regs(), delta, set);
            }
        },
        OpOf::BufferStore { src, width, .. } => {
            if width.regs() > 1 {
                lemma_range_kept(group, 0, src, width.regs(), delta, set);
            }
        },
        OpOf::GlobalAtomicAddF32 { addr, .. } => {
            lemma_range_kept(group, 0, addr, 2, delta, set);
        },
        OpOf::GlobalAtomicAddU32Rtn { addr, .. } => {
            lemma_range_kept(group, 0, addr, 2, delta, set);
        },
        OpOf::LdsLoad { dst, width, .. } => {
            if width.regs() > 1 {
                lemma_range_kept(group, 0, dst, width.regs(), delta, set);
            }
        },
        OpOf::LdsStore { src, width, .. } => {
            if width.regs() > 1 {
                lemma_range_kept(group, 0, src, width.regs(), delta, set);
            }
        },
        OpOf::DsStoreB64 { src, .. } => {
            lemma_range_kept(group, 0, src, 2, delta, set);
        },
        OpOf::DsStoreB128 { src, .. } => {
            lemma_range_kept(group, 0, src, 4, delta, set);
        },
        OpOf::DsLoadB64 { dst, .. } => {
            lemma_range_kept(group, 0, dst, 2, delta, set);
        },
        OpOf::DsLoadB128 { dst, .. } => {
            lemma_range_kept(group, 0, dst, 4, delta, set);
        },
        OpOf::Wmma { dst, a, b, c, .. } => {
            lemma_range_kept(group, 0, dst, 8, delta, set);
            lemma_range_kept(group, 8, a, 8, delta, set);
            lemma_range_kept(group, 16, b, 8, delta, set);
            lemma_range_kept(group, 24, c, 8, delta, set);
        },
        _ => {},
    }
    assert(op_vreg_uses(to) =~= renamed_regs(op_vreg_uses(op), delta, set));
    assert(op_vreg_defs(to) =~= renamed_regs(op_vreg_defs(op), delta, set));
}

/// Renamed registers are fresh, and those of different copies are different: copy `k`
/// moves registers by `k` times more than the largest number in use.
pub proof fn renamed_registers_are_fresh(ops: Seq<Op>, a: u32, b: u32, j: nat, k: nat)
    requires
        a <= max_vreg(ops),
        b <= max_vreg(ops),
        a != b || j != k,
    ensures
        a + j * (max_vreg(ops) + 1) != b + k * (max_vreg(ops) + 1),
        k > 0 ==> b + k * (max_vreg(ops) + 1) > max_vreg(ops),
{
    let m = max_vreg(ops) + 1;
    if j < k {
        assert(a + j * m < b + k * m) by (nonlinear_arith)
            requires
                j < k,
                a < m,
        ;
    } else if k < j {
        assert(b + k * m < a + j * m) by (nonlinear_arith)
            requires
                k < j,
                b < m,
        ;
    }
    if k > 0 {
        assert(k * m >= m) by (nonlinear_arith)
            requires
                k > 0,
        ;
    }
}

/// Every back edge closes a loop from its header.
pub(crate) proof fn lemma_backedges(ops: Seq<Op>, n: int)
    requires
        n <= ops.len(),
    ensures
        forall|k: int|
            0 <= k < backedges(ops, n).len() ==> 0 <= #[trigger] backedges(ops, n)[k] < n
                && closes_some_loop(ops, backedges(ops, n)[k]),
    decreases n,
{
    if n > 0 {
        lemma_backedges(ops, n - 1);
        assert forall|k: int| 0 <= k < backedges(ops, n).len() implies 0 <= #[trigger] backedges(
            ops,
            n,
        )[k] < n && closes_some_loop(ops, backedges(ops, n)[k]) by {
            if k < backedges(ops, n - 1).len() {
                assert(backedges(ops, n)[k] == backedges(ops, n - 1)[k]);
            }
        }
    }
}

/// Unrolls the counted loops, the last one first. Returns the operations and how many
/// loops were unrolled.
///
/// The loop's test is repeated between the copies, so that the number of rounds stays.
pub fn loop_unroll(ops: Vec<Op>) -> (r: (Vec<Op>, usize))
    ensures
        (r.0@, r.1 as nat) == unroll_spans(ops@, loop_spans(ops@)),
{
    let loops = detect_loops(ops.as_slice());
    let ghost spans = loop_spans(ops@);
    let ghost len = ops@.len();
    proof {
        lemma_backedges(ops@, ops@.len() as int);
        assert forall|k: int| 0 <= k < loops@.len() implies spans[k] == (
            (#[trigger] loops@[k]).header_idx as int,
            loops@[k].backedge_idx as int,
        ) by {
            assert(is_loop(ops@, backedges(ops@, ops@.len() as int)[k], loops@[k]));
        }
    }
    let mut count: usize = 0;
    let mut result: Vec<Op> = ops;
    let mut k: usize = loops.len();
    assert(spans.take(k as int) =~= spans);
    while k > 0
        invariant
            k <= loops@.len() == spans.len(),
            result@.len() >= len,
            forall|j: int|
                0 <= j < loops@.len() ==> spans[j] == (
                    (#[trigger] loops@[j]).header_idx as int,
                    loops@[j].backedge_idx as int,
                ) && loops@[j].header_idx + 3 < loops@[j].backedge_idx - 1
                    && loops@[j].backedge_idx < len,
            count + k <= loops.len(),
            unroll_spans(ops@, spans).0 == unroll_spans(result@, spans.take(k as int)).0,
            unroll_spans(ops@, spans).1 == count + unroll_spans(result@, spans.take(k as int)).1,
        decreases k,
    {
        k = k - 1;
        let h: usize = loops[k].header_idx;
        let i: usize = loops[k].backedge_idx;
        proof {
            assert(spans.take(k + 1).drop_last() =~= spans.take(k as int));
            assert(spans.take(k + 1).last() == spans[k as int]);
            assert(loops@[k as int].header_idx == h);
            lemma_unroll_grows(result@, h as int, i as int);
        }
        let (next, unrolled) = unroll_loop(result, h, i);
        result = next;
        if unrolled {
            count = count + 1;
        }
    }
    assert(spans.take(0) =~= Seq::empty());
    (result, count)
}

/// Where no loop was unrolled, the operations are unchanged.
pub proof fn unroll_without_loops_is_identity(ops: Seq<Op>, spans: Seq<(int, int)>)
    requires
        unroll_spans(ops, spans).1 == 0,
    ensures
        unroll_spans(ops, spans).0 == ops,
    decreases spans.len(),
{
    if spans.len() > 0 {
        let (h, i) = spans.last();
        unroll_without_loops_is_identity(unroll_one(ops, h, i), spans.drop_last());
    }
}

// ── Coalescing of global accesses ──
/// Whether an operation loads one word from `offset` behind `addr` into register `dst`.
pub open spec fn loads_word(op: Op, dst: int, addr: VReg, offset: int) -> bool {
    op matches OpOf::GlobalLoad { dst: d, addr: a, width: Width::B32, offset: o } && d.0 == dst
        && a == addr && o == offset
}

/// Whether an operation stores register `src` as one word at `offset` behind `addr`.
pub open spec fn stores_word(op: Op, src: int, addr: VReg, offset: int) -> bool {
    op matches OpOf::GlobalStore { addr: a, src: s, width: Width::B32, offset: o } && s.0 == src
        && a == addr && o == offset
}

/// Whether the first `n` operations load consecutive words into consecutive registers.
pub open spec fn load_run(ops: Seq<Op>, n: int) -> bool {
    &&& n <= ops.len()
    &&& ops[0] matches OpOf::GlobalLoad { dst, addr, width: Width::B32, offset } && forall|k: int|
        0 <= k < n ==> #[trigger] loads_word(ops[k], dst.0 + k, addr, offset + 4 * k)
}

/// Whether the first `n` operations store consecutive registers as consecutive words.
pub open spec fn store_run(ops: Seq<Op>, n: int) -> bool {
    &&& n <= ops.len()
    &&& ops[0] matches OpOf::GlobalStore { addr, src, width: Width::B32, offset } && forall|k: int|
        0 <= k < n ==> #[trigger] stores_word(ops[k], src.0 + k, addr, offset + 4 * k)
}

/// A global access with another width.
pub open spec fn with_width(op: Op, w: Width) -> Op {
    match op {
        OpOf::GlobalLoad { dst, addr, width, offset } => OpOf::GlobalLoad {
            dst,
            addr,
            width: w,
            offset,
        },
        OpOf::GlobalStore { addr, src, width, offset } => OpOf::GlobalStore {
            addr,
            src,
            width: w,
            offset,
        },
        _ => op,
    }
}

/// How many of the first operations become one, and which: four words, else two, else the
/// first operation alone.
pub open spec fn merged_head(ops: Seq<Op>) -> (Op, nat) {
    if load_run(ops, 4) || (!load_run(ops, 2) && store_run(ops, 4)) {
        (with_width(ops[0], Width::B128), 4)
    } else if load_run(ops, 2) || store_run(ops, 2) {
        (with_width(ops[0], Width::B64), 2)
    } else {
        (ops[0], 1)
    }
}

/// The operations with adjacent accesses to consecutive words merged, from the front.
pub open spec fn coalesced(ops: Seq<Op>) -> Seq<Op>
    decreases ops.len(),
{
    if ops.len() == 0 {
        Seq::empty()
    } else {
        let (op, n) = merged_head(ops);
        seq![op] + coalesced(ops.skip(n as int))
    }
}

/// The `k`-th word of a run starts from the access `first`.
fn continues_load(first: &Op, next: &Op, k: u32) -> (r: bool)
    requires
        k <= 3,
        *first matches OpOf::GlobalLoad { width: Width::B32, .. },
    ensures
        *first matches OpOf::GlobalLoad { dst, addr, offset, .. } && r == loads_word(
            *next,
            dst.0 + k,
            addr,
            offset + 4 * k,
        ),
{
    match (first, next) {
        (
            OpOf::GlobalLoad { dst: d0, addr: a0, width: _, offset: o0 },
            OpOf::GlobalLoad { dst: d1, addr: a1, width: Width::B32, offset: o1 },
        ) => *a0 == *a1 && *o1 as i64 == *o0 as i64 + 4 * k as i64 && d1.0 as u64 == d0.0 as u64
            + k as u64,
        _ => false,
    }
}

/// The `k`-th word of a run starts from the access `first`.
fn continues_store(first: &Op, next: &Op, k: u32) -> (r: bool)
    requires
        k <= 3,
        *first matches OpOf::GlobalStore { width: Width::B32, .. },
    ensures
        *first matches OpOf::GlobalStore { addr, src, offset, .. } && r == stores_word(
            *next,
            src.0 + k,
            addr,
            offset + 4 * k,
        ),
{
    match (first, next) {
        (
            OpOf::GlobalStore { addr: a0, src: s0, width: _, offset: o0 },
            OpOf::GlobalStore { addr: a1, src: s1, width: Width::B32, offset: o1 },
        ) => *a0 == *a1 && *o1 as i64 == *o0 as i64 + 4 * k as i64 && s1.0 as u64 == s0.0 as u64
            + k as u64,
        _ => false,
    }
}

/// Whether `n` operations from `i` on load consecutive words into consecutive registers.
fn is_load_run(ops: &Vec<Op>, i: usize, n: usize) -> (r: bool)
    requires
        i < ops@.len(),
        n == 2 || n == 4,
    ensures
        r == load_run(ops@.skip(i as int), n as int),
{
    let ghost rest = ops@.skip(i as int);
    if ops.len() - i < n {
        return false;
    }
    if !matches!(&ops[i], OpOf::GlobalLoad { width: Width::B32, .. }) {
        return false;
    }
    assert(rest[0] == ops@[i as int] && rest[1] == ops@[i + 1]);
    if !continues_load(&ops[i], &ops[i + 1], 1) {
        proof {
            if load_run(rest, n as int) {
                match rest[0] {
                    OpOf::GlobalLoad { dst, addr, offset, .. } => {
                        assert(loads_word(rest[1], dst.0 + 1, addr, offset + 4 * 1));
                    },
                    _ => {},
                }
            }
        }
        return false;
    }
    if n == 4 {
        assert(rest[2] == ops@[i + 2] && rest[3] == ops@[i + 3]);
        let c2: bool = continues_load(&ops[i], &ops[i + 2], 2);
        let c3: bool = continues_load(&ops[i], &ops[i + 3], 3);
        if !c2 || !c3 {
            proof {
                if load_run(rest, n as int) {
                    match rest[0] {
                        OpOf::GlobalLoad { dst, addr, offset, .. } => {
                            assert(loads_word(rest[2], dst.0 + 2, addr, offset + 4 * 2));
                            assert(loads_word(rest[3], dst.0 + 3, addr, offset + 4 * 3));
                        },
                        _ => {},
                    }
                }
            }
            return false;
        }
    }
    true
}

/// Whether `n` operations from `i` on store consecutive registers as consecutive words.
fn is_store_run(ops: &Vec<Op>, i: usize, n: usize) -> (r: bool)
    requires
        i < ops@.len(),
        n == 2 || n == 4,
    ensures
        r == store_run(ops@.skip(i as int), n as int),
{
    let ghost rest = ops@.skip(i as int);
    if ops.len() - i < n {
        return false;
    }
    if !matches!(&ops[i], OpOf::GlobalStore { width: Width::B32, .. }) {
        return false;
    }
    assert(rest[0] == ops@[i as int] && rest[1] == ops@[i + 1]);
    if !continues_store(&ops[i], &ops[i + 1], 1) {
        proof {
            if store_run(rest, n as int) {
                match rest[0] {
                    OpOf::GlobalStore { addr, src, offset, .. } => {
                        assert(stores_word(rest[1], src.0 + 1, addr, offset + 4 * 1));
                    },
                    _ => {},
                }
            }
        }
        return false;
    }
    if n == 4 {
        assert(rest[2] == ops@[i + 2] && rest[3] == ops@[i + 3]);
        let c2: bool = continues_store(&ops[i], &ops[i + 2], 2);
        let c3: bool = continues_store(&ops[i], &ops[i + 3], 3);
        if !c2 || !c3 {
            proof {
                if store_run(rest, n as int) {
                    match rest[0] {
                        OpOf::GlobalStore { addr, src, offset, .. } => {
                            assert(stores_word(rest[2], src.0 + 2, addr, offset + 4 * 2));
                            assert(stores_word(rest[3], src.0 + 3, addr, offset + 4 * 3));
                        },
                        _ => {},
                    }
                }
            }
            return false;
        }
    }
    true
}

/// A global access with another width.
fn widen(op: &Op, w: Width) -> (r: Op)
    ensures
        r == with_width(*op, w),
{
    match op {
        OpOf::GlobalLoad { dst, addr, width: _, offset } => OpOf::GlobalLoad {
            dst: *dst,
            addr: *addr,
            width: w,
            offset: *offset,
        },
        OpOf::GlobalStore { addr, src, width: _, offset } => OpOf::GlobalStore {
            addr: *addr,
            src: *src,
            width: w,
            offset: *offset,
        },
        other => other.clone(),
    }
}

/// Merges adjacent accesses to consecutive words. Returns the operations and how many
/// were saved.
pub fn coalesce_loads(ops: Vec<Op>) -> (r: (Vec<Op>, usize))
    ensures
        r.0@ == coalesced(ops@),
        r.1 == ops@.len() - r.0@.len(),
{
    let mut result: Vec<Op> = Vec::new();
    let mut saved: usize = 0;
    let mut i: usize = 0;
    assert(ops@.skip(0) =~= ops@);
    while i < ops.len()
        invariant
            i <= ops.len(),
            result@.len() + saved == i,
            coalesced(ops@) == result@ + coalesced(ops@.skip(i as int)),
        decreases ops.len() - i,
    {
        let ghost rest = ops@.skip(i as int);
        let ghost before = result@;
        let (op, n): (Op, usize) = if is_load_run(&ops, i, 4) {
            (widen(&ops[i], Width::B128), 4)
        } else if is_load_run(&ops, i, 2) {
            (widen(&ops[i], Width::B64), 2)
        } else if is_store_run(&ops, i, 4) {
            (widen(&ops[i], Width::B128), 4)
        } else if is_store_run(&ops, i, 2) {
            (widen(&ops[i], Width::B64), 2)
        } else {
            (ops[i].clone(), 1)
        };
        assert((op, n as nat) == merged_head(rest));
        result.push(op);
        saved = saved + (n - 1);
        assert(rest.skip(n as int) =~= ops@.skip(i + n));
        i = i + n;
        assert(result@ + coalesced(ops@.skip(i as int)) =~= before + coalesced(rest));
    }
    assert(result@ + coalesced(ops@.skip(i as int)) =~= result@);
    (result, saved)
}

/// One thing that a kernel does to global memory, or any other operation.
pub enum Step {
    /// A word from `offset` behind `addr` into register `reg`.
    Load { addr: VReg, offset: int, reg: int },
    /// Register `reg` as a word at `offset` behind `addr`.
    Store { addr: VReg, offset: int, reg: int },
    /// Another operation.
    Other(Op),
}

/// What an operation does, word by word.
pub open spec fn steps_of(op: Op) -> Seq<Step> {
    match op {
        OpOf::GlobalLoad { dst, addr, width, offset } => if width is B16 {
            seq![Step::Other(op)]
        } else {
            Seq::new(
                width.regs(),
                |k: int| Step::Load { addr, offset: offset + 4 * k, reg: dst.0 + k },
            )
        },
        OpOf::GlobalStore { addr, src, width, offset } => if width is B16 {
            seq![Step::Other(op)]
        } else {
            Seq::new(
                width.regs(),
                |k: int| Step::Store { addr, offset: offset + 4 * k, reg: src.0 + k },
            )
        },
        _ => seq![Step::Other(op)],
    }
}

/// What operations do, word by word.
pub open spec fn steps(ops: Seq<Op>) -> Seq<Step>
    decreases ops.len(),
{
    if ops.len() == 0 {
        Seq::empty()
    } else {
        steps_of(ops[0]) + steps(ops.skip(1))
    }
}

proof fn lemma_concat_assoc(a: Seq<Step>, b: Seq<Step>, c: Seq<Step>, d: Seq<Step>, r: Seq<Step>)
    ensures
        a + (b + r) == a + b + r,
        a + b + (c + d + r) == a + b + c + d + r,
{
    assert(a + (b + r) =~= a + b + r);
    assert(a + b + (c + d + r) =~= a + b + c + d + r);
}

proof fn lemma_steps_two(ops: Seq<Op>)
    requires
        ops.len() >= 2,
    ensures
        steps(ops) == steps_of(ops[0]) + steps_of(ops[1]) + steps(ops.skip(2)),
{
    assert(ops.skip(1).skip(1) =~= ops.skip(2));
    assert(steps(ops.skip(1)) == steps_of(ops[1]) + steps(ops.skip(2)));
    lemma_concat_assoc(
        steps_of(ops[0]),
        steps_of(ops[1]),
        Seq::empty(),
        Seq::empty(),
        steps(ops.skip(2)),
    );
}

proof fn lemma_steps_four(ops: Seq<Op>)
    requires
        ops.len() >= 4,
    ensures
        steps(ops) == steps_of(ops[0]) + steps_of(ops[1]) + steps_of(ops[2]) + steps_of(ops[3])
            + steps(ops.skip(4)),
{
    lemma_steps_two(ops);
    lemma_steps_two(ops.skip(2));
    assert(ops.skip(2).skip(2) =~= ops.skip(4));
    lemma_concat_assoc(
        steps_of(ops[0]),
        steps_of(ops[1]),
        steps_of(ops[2]),
        steps_of(ops[3]),
        steps(ops.skip(4)),
    );
}

proof fn lemma_merged_head_steps(ops: Seq<Op>)
    requires
        ops.len() > 0,
    ensures
        steps(ops) == steps_of(merged_head(ops).0) + steps(ops.skip(merged_head(ops).1 as int)),
        1 <= merged_head(ops).1 <= ops.len(),
{
    let (op, n) = merged_head(ops);
    if n == 4 {
        lemma_steps_four(ops);
    } else if n == 2 {
        lemma_steps_two(ops);
    }
    if n > 1 {
        match ops[0] {
            OpOf::GlobalLoad { dst, addr, width, offset } => {
                assert(load_run(ops, n as int));
                assert(loads_word(ops[1], dst.0 + 1, addr, offset + 4 * 1));
                if n == 4 {
                    assert(loads_word(ops[2], dst.0 + 2, addr, offset + 4 * 2));
                    assert(loads_word(ops[3], dst.0 + 3, addr, offset + 4 * 3));
                    assert(steps_of(op) =~= steps_of(ops[0]) + steps_of(ops[1]) + steps_of(ops[2])
                        + steps_of(ops[3]));
                } else {
                    assert(steps_of(op) =~= steps_of(ops[0]) + steps_of(ops[1]));
                }
            },
            OpOf::GlobalStore { addr, src, width, offset } => {
                assert(store_run(ops, n as int));
                assert(stores_word(ops[1], src.0 + 1, addr, offset + 4 * 1));
                if n == 4 {
                    assert(stores_word(ops[2], src.0 + 2, addr, offset + 4 * 2));
                    assert(stores_word(ops[3], src.0 + 3, addr, offset + 4 * 3));
                    assert(steps_of(op) =~= steps_of(ops[0]) + steps_of(ops[1]) + steps_of(ops[2])
                        + steps_of(ops[3]));
                } else {
                    assert(steps_of(op) =~= steps_of(ops[0]) + steps_of(ops[1]));
                }
            },
            _ => {},
        }
    }
}

/// Coalescing keeps what a kernel does to memory: the same words move between the same
/// places and registers in the same order, with every other operation where it was.
pub proof fn coalescing_keeps_accesses(ops: Seq<Op>)
    ensures
        steps(coalesced(ops)) == steps(ops),
    decreases ops.len(),
{
    if ops.len() > 0 {
        lemma_merged_head_steps(ops);
        let (op, n) = merged_head(ops);
        coalescing_keeps_accesses(ops.skip(n as int));
        let rest = coalesced(ops.skip(n as int));
        assert((seq![op] + rest).skip(1) =~= rest);
        assert(steps(coalesced(ops)) =~= steps_of(op) + steps(rest));
    }
}

// ── Scheduling ──
/// Whether an operation is a global load.
pub open spec fn is_vmem_load(op: Op) -> bool {
    op is GlobalLoad || op is BufferLoad
}

/// Whether an operation is a load from the local data share.
pub open spec fn is_lds_load(op: Op) -> bool {
    op is LdsLoad || op is DsLoadB32 || op is DsLoadB64 || op is DsLoadB128 || op is DsLoadU16
        || op is DsLoadU16D16 || op is DsLoadU16D16Hi
}

/// Whether an operation is a load of the kind at hand.
pub open spec fn is_load(op: Op, vmem: bool) -> bool {
    if vmem {
        is_vmem_load(op)
    } else {
        is_lds_load(op)
    }
}

/// Whether an operation waits for loads of the kind at hand.
pub open spec fn is_wait(op: Op, vmem: bool) -> bool {
    if vmem {
        op is WaitVmcnt
    } else {
        op is WaitLgkmcnt
    }
}

/// Whether operations behind this one stay behind it: the wait for the loads at hand,
/// barriers, branches and their targets, and what changes which lanes take part.
pub open spec fn ends_region(op: Op, vmem: bool) -> bool {
    is_wait(op, vmem) || op is Barrier || op is SBarrier || op is Label || op is Branch
        || op is BranchScc0 || op is BranchScc1 || op is BranchVccz || hides_lanes(op)
}

/// Whether a wait waits for an operation, if it leaves something outstanding.
pub open spec fn waits_for(wait: Op, op: Op) -> bool {
    match wait {
        OpOf::WaitVmcnt(_) => counts_vm(op),
        OpOf::WaitLgkmcnt(_) => leaves_lgkm(op),
        OpOf::WaitVscnt(_) => counts_vs(op),
        _ => false,
    }
}

/// Whether an operation names nothing that a wait makes sure of: no register that an
/// operation of the program writes which the wait waits for.
pub open spec fn needs_no_wait(op: Op, wait: Op, ops: Seq<Op>) -> bool {
    forall|k: int|
        0 <= k < ops.len() && waits_for(wait, #[trigger] ops[k]) ==> independent_of_load(
            op,
            ops[k],
        ) && disjoint(op_sreg_defs(op), op_sreg_defs(ops[k]))
}

/// Whether two sequences of registers have none in common.
pub open spec fn disjoint<T>(a: Seq<T>, b: Seq<T>) -> bool {
    forall|i: int, j: int|
        0 <= i < a.len() && 0 <= j < b.len() ==> #[trigger] a[i] != #[trigger] b[j]
}

/// Whether an operation needs nothing from a load before it and overwrites nothing of it.
pub open spec fn independent_of_load(op: Op, load: Op) -> bool {
    &&& disjoint(op_vreg_uses(op), op_vreg_defs(load))
    &&& disjoint(op_vreg_defs(op), op_vreg_defs(load))
    &&& !((op_reads_vcc(op) || op_writes_vcc(op)) && op_writes_vcc(load))
    &&& disjoint(op_sreg_uses(op), op_sreg_defs(load))
    &&& disjoint(op_sreg_defs(op), op_sreg_uses(load))
}

/// Whether an operation can move in front of another one that came before it: it reads
/// nothing that the other writes, and writes nothing that the other reads or writes, be it
/// a register or a condition code.
pub open spec fn can_pass(op: Op, other: Op) -> bool {
    &&& disjoint(op_vreg_uses(op), op_vreg_defs(other))
    &&& disjoint(op_vreg_defs(op), op_vreg_defs(other))
    &&& disjoint(op_vreg_defs(op), op_vreg_uses(other))
    &&& !((op_reads_vcc(op) || op_writes_vcc(op)) && op_writes_vcc(other))
    &&& !((op_reads_scc(op) || op_writes_scc(op)) && op_writes_scc(other))
    &&& !(op_writes_vcc(op) && op_reads_vcc(other))
    &&& !(op_writes_scc(op) && op_reads_scc(other))
    &&& disjoint(op_sreg_uses(op), op_sreg_defs(other))
    &&& disjoint(op_sreg_defs(op), op_sreg_defs(other))
    &&& disjoint(op_sreg_defs(op), op_sreg_uses(other))
}

/// Whether an operation of a program can move up behind the loads, in front of the operations
/// that stay.
pub open spec fn may_hoist(
    ops: Seq<Op>,
    op: Op,
    loads: Seq<Op>,
    kept: Seq<Op>,
    vmem: bool,
) -> bool {
    &&& if vmem {
        overlaps_vmem(op)
    } else {
        overlaps_lds(op)
    }
    &&& !op_has_side_effects(op)
    &&& forall|k: int| 0 <= k < loads.len() ==> independent_of_load(op, #[trigger] loads[k])
    &&& forall|k: int|
        0 <= k < kept.len() ==> can_pass(op, #[trigger] kept[k]) && needs_no_wait(op, kept[k], ops)
}

/// The operations behind some loads, those that move up and those that stay, each in
/// order.
pub open spec fn split_region(
    ops: Seq<Op>,
    loads: Seq<Op>,
    region: Seq<Op>,
    vmem: bool,
) -> (Seq<Op>, Seq<Op>)
    decreases region.len(),
{
    if region.len() == 0 {
        (Seq::empty(), Seq::empty())
    } else {
        let (moved, kept) = split_region(ops, loads, region.drop_last(), vmem);
        if may_hoist(ops, region.last(), loads, kept, vmem) {
            (moved.push(region.last()), kept)
        } else {
            (moved, kept.push(region.last()))
        }
    }
}

/// The end of the run of loads from `i` on.
pub open spec fn run_end(block: Seq<Op>, i: int, vmem: bool) -> int
    decreases block.len() - i,
{
    if 0 <= i < block.len() && is_load(block[i], vmem) {
        run_end(block, i + 1, vmem)
    } else {
        i
    }
}

/// The end of the operations from `i` on that can move.
pub open spec fn region_end(block: Seq<Op>, i: int, vmem: bool) -> int
    decreases block.len() - i,
{
    if 0 <= i < block.len() && !ends_region(block[i], vmem) {
        region_end(block, i + 1, vmem)
    } else {
        i
    }
}

proof fn lemma_ends(block: Seq<Op>, i: int, vmem: bool)
    requires
        0 <= i <= block.len(),
    ensures
        i <= run_end(block, i, vmem) <= block.len(),
        i <= region_end(block, i, vmem) <= block.len(),
        i < block.len() && is_load(block[i], vmem) ==> run_end(block, i, vmem) > i,
    decreases block.len() - i,
{
    if i < block.len() {
        lemma_ends(block, i + 1, vmem);
    }
}

/// A block from `i` on, scheduled: behind each run of loads come the operations that can
/// move up, then those that stay, then the wait. Also how many operations moved.
pub open spec fn schedule_from(ops: Seq<Op>, block: Seq<Op>, i: int) -> (Seq<Op>, nat)
    decreases block.len() - i,
    via schedule_from_decreases
{
    if !(0 <= i < block.len()) {
        (Seq::empty(), 0)
    } else if is_vmem_load(block[i]) || is_lds_load(block[i]) {
        let vmem = is_vmem_load(block[i]);
        let j = run_end(block, i, vmem);
        let k = region_end(block, j, vmem);
        let (moved, kept) = split_region(ops, block.subrange(i, j), block.subrange(j, k), vmem);
        let next = if k < block.len() && is_wait(block[k], vmem) {
            k + 1
        } else {
            k
        };
        let rest = schedule_from(ops, block, next);
        (
            block.subrange(i, j) + moved + kept + block.subrange(k, next) + rest.0,
            moved.len() + rest.1,
        )
    } else {
        let rest = schedule_from(ops, block, i + 1);
        (seq![block[i]] + rest.0, rest.1)
    }
}

#[via_fn]
proof fn schedule_from_decreases(ops: Seq<Op>, block: Seq<Op>, i: int) {
    if 0 <= i < block.len() && (is_vmem_load(block[i]) || is_lds_load(block[i])) {
        let vmem = is_vmem_load(block[i]);
        lemma_ends(block, i, vmem);
        lemma_ends(block, run_end(block, i, vmem), vmem);
    }
}

/// Whether a block holds buffer accesses, whose order is set by hand.
pub open spec fn has_buffer_ops(block: Seq<Op>) -> bool {
    exists|k: int|
        0 <= k < block.len() && (#[trigger] block[k] is BufferLoad || block[k] is BufferStore)
}

/// A block scheduled, and how many operations moved. Short blocks and blocks with buffer
/// accesses stay as they are.
pub open spec fn schedule_block(ops: Seq<Op>, block: Seq<Op>) -> (Seq<Op>, nat) {
    if block.len() < 3 || has_buffer_ops(block) {
        (block, 0)
    } else {
        schedule_from(ops, block, 0)
    }
}

/// The end of the block that starts at `start`: the next label, or the end.
pub open spec fn block_end(ops: Seq<Op>, i: int) -> int
    decreases ops.len() - i,
{
    if 0 <= i < ops.len() && !(ops[i] is Label) {
        block_end(ops, i + 1)
    } else {
        i
    }
}

proof fn lemma_block_end(ops: Seq<Op>, i: int)
    requires
        0 <= i <= ops.len(),
    ensures
        i <= block_end(ops, i) <= ops.len(),
    decreases ops.len() - i,
{
    if i < ops.len() {
        lemma_block_end(ops, i + 1);
    }
}

/// The operations from `start` on with each block scheduled, and how many operations
/// moved.
pub open spec fn schedule_blocks(ops: Seq<Op>, start: int) -> (Seq<Op>, nat)
    decreases ops.len() - start,
    via schedule_blocks_decreases
{
    if !(0 <= start < ops.len()) {
        (Seq::empty(), 0)
    } else {
        let end = block_end(ops, start + 1);
        let first = schedule_block(ops, ops.subrange(start, end));
        let rest = schedule_blocks(ops, end);
        (first.0 + rest.0, first.1 + rest.1)
    }
}

#[via_fn]
proof fn schedule_blocks_decreases(ops: Seq<Op>, start: int) {
    if 0 <= start < ops.len() {
        lemma_block_end(ops, start + 1);
    }
}

/// Whether two lists of vector registers have none in common.
fn vregs_disjoint(a: &Vec<VReg>, b: &Vec<VReg>) -> (r: bool)
    ensures
        r == disjoint(a@, b@),
{
    let mut i: usize = 0;
    while i < a.len()
        invariant
            i <= a.len(),
            forall|x: int, y: int|
                0 <= x < i && 0 <= y < b@.len() ==> #[trigger] a@[x] != #[trigger] b@[y],
        decreases a.len() - i,
    {
        let mut j: usize = 0;
        while j < b.len()
            invariant
                i < a.len(),
                j <= b.len(),
                forall|y: int| 0 <= y < j ==> a@[i as int] != #[trigger] b@[y],
            decreases b.len() - j,
        {
            if a[i] == b[j] {
                return false;
            }
            j = j + 1;
        }
        i = i + 1;
    }
    true
}

/// Whether two lists of scalar registers have none in common.
fn sregs_disjoint(a: &Vec<SReg>, b: &Vec<SReg>) -> (r: bool)
    ensures
        r == disjoint(a@, b@),
{
    let mut i: usize = 0;
    while i < a.len()
        invariant
            i <= a.len(),
            forall|x: int, y: int|
                0 <= x < i && 0 <= y < b@.len() ==> #[trigger] a@[x] != #[trigger] b@[y],
        decreases a.len() - i,
    {
        let mut j: usize = 0;
        while j < b.len()
            invariant
                i < a.len(),
                j <= b.len(),
                forall|y: int| 0 <= y < j ==> a@[i as int] != #[trigger] b@[y],
            decreases b.len() - j,
        {
            if a[i] == b[j] {
                return false;
            }
            j = j + 1;
        }
        i = i + 1;
    }
    true
}

/// Whether an operation needs nothing from a load before it and overwrites nothing of it.
fn check_independent_of_load(op: &Op, load: &Op) -> (r: bool)
    ensures
        r == independent_of_load(*op, *load),
{
    let load_defs = load.vreg_defs();
    vregs_disjoint(&op.vreg_uses(), &load_defs) && vregs_disjoint(
        &op.vreg_defs(),
        &load_defs,
    ) && !((
    op.reads_vcc() || op.writes_vcc()) && load.writes_vcc()) && sregs_disjoint(
        &op.sreg_uses(),
        &load.sreg_defs(),
    ) && sregs_disjoint(&op.sreg_defs(), &load.sreg_uses())
}

/// Whether an operation can move in front of another one that came before it.
fn check_can_pass(op: &Op, other: &Op) -> (r: bool)
    ensures
        r == can_pass(*op, *other),
{
    let uses = op.vreg_uses();
    let defs = op.vreg_defs();
    let other_defs = other.vreg_defs();
    if !vregs_disjoint(&uses, &other_defs) || !vregs_disjoint(&defs, &other_defs)
        || !vregs_disjoint(&defs, &other.vreg_uses()) {
        return false;
    }
    if (op.reads_vcc() || op.writes_vcc()) && other.writes_vcc() {
        return false;
    }
    if (op.reads_scc() || op.writes_scc()) && other.writes_scc() {
        return false;
    }
    if op.writes_vcc() && other.reads_vcc() {
        return false;
    }
    if op.writes_scc() && other.reads_scc() {
        return false;
    }
    let suses = op.sreg_uses();
    let sdefs = op.sreg_defs();
    let other_sdefs = other.sreg_defs();
    sregs_disjoint(&suses, &other_sdefs) && sregs_disjoint(&sdefs, &other_sdefs)
        && sregs_disjoint(&sdefs, &other.sreg_uses())
}

/// Whether a wait waits for an operation, if it leaves something outstanding.
fn check_waits_for(wait: &Op, op: &Op) -> (r: bool)
    ensures
        r == waits_for(*wait, *op),
{
    let counter = op_latency(op).wait_counter;
    match wait {
        OpOf::WaitVmcnt(_) => {
            matches!(counter, Some(WaitCounter::VMcnt) | Some(WaitCounter::VScnt))
        },
        OpOf::WaitLgkmcnt(_) => {
            matches!(counter, Some(WaitCounter::LGKMcnt)) || matches!(op, OpOf::DsSwizzle { .. })
        },
        OpOf::WaitVscnt(_) => matches!(counter, Some(WaitCounter::VScnt)),
        _ => false,
    }
}

/// Whether an operation names nothing that a wait makes sure of.
fn check_needs_no_wait(op: &Op, wait: &Op, ops: &Vec<Op>) -> (r: bool)
    ensures
        r == needs_no_wait(*op, *wait, ops@),
{
    if !matches!(wait, OpOf::WaitVmcnt(_) | OpOf::WaitLgkmcnt(_) | OpOf::WaitVscnt(_)) {
        return true;
    }
    let defs = op.sreg_defs();
    let mut k: usize = 0;
    while k < ops.len()
        invariant
            k <= ops.len(),
            defs@ == op_sreg_defs(*op),
            forall|j: int|
                0 <= j < k && waits_for(*wait, #[trigger] ops@[j]) ==> independent_of_load(
                    *op,
                    ops@[j],
                ) && disjoint(op_sreg_defs(*op), op_sreg_defs(ops@[j])),
        decreases ops.len() - k,
    {
        if check_waits_for(wait, &ops[k]) && !(check_independent_of_load(op, &ops[k])
            && sregs_disjoint(&defs, &ops[k].sreg_defs())) {
            return false;
        }
        k = k + 1;
    }
    true
}

/// Whether an operation can move up behind the loads of `[from, to)`, in front of the
/// operations that stay.
fn check_may_hoist(
    ops: &Vec<Op>,
    op: &Op,
    block: &Vec<Op>,
    from: usize,
    to: usize,
    kept: &Vec<Op>,
    vmem: bool,
) -> (r: bool)
    requires
        from <= to <= block@.len(),
    ensures
        r == may_hoist(ops@, *op, block@.subrange(from as int, to as int), kept@, vmem),
{
    let ghost loads = block@.subrange(from as int, to as int);
    let overlaps: bool = if vmem {
        can_overlap_vmem(op)
    } else {
        can_overlap_lds(op)
    };
    if !overlaps || op.has_side_effects() {
        return false;
    }
    let mut i: usize = from;
    while i < to
        invariant
            from <= i <= to <= block@.len(),
            loads == block@.subrange(from as int, to as int),
            forall|k: int|
                0 <= k < i - from ==> independent_of_load(*op, #[trigger] loads[k]),
        decreases to - i,
    {
        assert(loads[i - from] == block@[i as int]);
        if !check_independent_of_load(op, &block[i]) {
            return false;
        }
        i = i + 1;
    }
    let mut j: usize = 0;
    while j < kept.len()
        invariant
            j <= kept.len(),
            forall|k: int|
                0 <= k < j ==> can_pass(*op, #[trigger] kept@[k]) && needs_no_wait(
                    *op,
                    kept@[k],
                    ops@,
                ),
        decreases kept.len() - j,
    {
        if !check_can_pass(op, &kept[j]) || !check_needs_no_wait(op, &kept[j], ops) {
            return false;
        }
        j = j + 1;
    }
    true
}

/// The operations of `[j, k)` that move up behind the loads of `[i, j)`, and those that
/// stay.
fn split_ops(
    ops: &Vec<Op>,
    block: &Vec<Op>,
    i: usize,
    j: usize,
    k: usize,
    vmem: bool,
) -> (r: (Vec<Op>, Vec<Op>))
    requires
        i <= j <= k <= block@.len(),
    ensures
        (r.0@, r.1@) == split_region(
            ops@,
            block@.subrange(i as int, j as int),
            block@.subrange(j as int, k as int),
            vmem,
        ),
        r.0@.len() + r.1@.len() == k - j,
{
    let ghost loads = block@.subrange(i as int, j as int);
    let mut moved: Vec<Op> = Vec::new();
    let mut kept: Vec<Op> = Vec::new();
    let mut c: usize = j;
    assert(block@.subrange(j as int, j as int) =~= Seq::empty());
    while c < k
        invariant
            i <= j <= c <= k <= block@.len(),
            loads == block@.subrange(i as int, j as int),
            (moved@, kept@) == split_region(
                ops@,
                loads,
                block@.subrange(j as int, c as int),
                vmem,
            ),
            moved@.len() + kept@.len() == c - j,
        decreases k - c,
    {
        let hoist: bool = check_may_hoist(ops, &block[c], block, i, j, &kept, vmem);
        proof {
            let next = block@.subrange(j as int, c + 1);
            assert(next.drop_last() =~= block@.subrange(j as int, c as int));
            assert(next.last() == block@[c as int]);
        }
        if hoist {
            moved.push(block[c].clone());
        } else {
            kept.push(block[c].clone());
        }
        c = c + 1;
    }
    (moved, kept)
}

/// Whether an operation is a load of the kind at hand.
fn check_load(op: &Op, vmem: bool) -> (r: bool)
    ensures
        r == is_load(*op, vmem),
{
    if vmem {
        matches!(op, OpOf::GlobalLoad { .. } | OpOf::BufferLoad { .. })
    } else {
        matches!(op, OpOf::LdsLoad { .. } | OpOf::DsLoadB32 { .. } | OpOf::DsLoadB64 { .. }
            | OpOf::DsLoadB128 { .. } | OpOf::DsLoadU16 { .. } | OpOf::DsLoadU16D16 { .. }
            | OpOf::DsLoadU16D16Hi { .. })
    }
}

/// Whether an operation waits for loads of the kind at hand.
fn check_wait(op: &Op, vmem: bool) -> (r: bool)
    ensures
        r == is_wait(*op, vmem),
{
    if vmem {
        matches!(op, OpOf::WaitVmcnt(_))
    } else {
        matches!(op, OpOf::WaitLgkmcnt(_))
    }
}

/// Whether operations behind this one stay behind it.
fn check_ends_region(op: &Op, vmem: bool) -> (r: bool)
    ensures
        r == ends_region(*op, vmem),
{
    check_wait(op, vmem) || matches!(op, OpOf::Barrier | OpOf::SBarrier | OpOf::Label(_)
        | OpOf::Branch(_) | OpOf::BranchScc0(_) | OpOf::BranchScc1(_) | OpOf::BranchVccz(_)
        | OpOf::SaveExec { .. } | OpOf::RestoreExec { .. } | OpOf::XorExec { .. }
        | OpOf::RawAsm(_))
}

/// Schedules one block, and says how many operations moved.
fn schedule_one_block(ops: &Vec<Op>, block: &Vec<Op>) -> (r: (Vec<Op>, usize))
    ensures
        (r.0@, r.1 as nat) == schedule_block(ops@, block@),
        r.1 <= block@.len(),
{
    let mut has_buffer: bool = false;
    let mut b: usize = 0;
    while b < block.len()
        invariant
            b <= block.len(),
            has_buffer == exists|k: int|
                0 <= k < b && (#[trigger] block@[k] is BufferLoad || block@[k] is BufferStore),
        decreases block.len() - b,
    {
        if matches!(&block[b], OpOf::BufferLoad { .. } | OpOf::BufferStore { .. }) {
            has_buffer = true;
        }
        b = b + 1;
    }
    let mut out: Vec<Op> = Vec::new();
    if block.len() < 3 || has_buffer {
        push_range(&mut out, block, 0, block.len());
        assert(out@ =~= block@);
        return (out, 0);
    }
    let mut reordered: usize = 0;
    let mut i: usize = 0;
    let ghost total = schedule_from(ops@, block@, 0);
    while i < block.len()
        invariant
            i <= block.len(),
            total == schedule_from(ops@, block@, 0),
            total.0 == out@ + schedule_from(ops@, block@, i as int).0,
            total.1 == reordered + schedule_from(ops@, block@, i as int).1,
            reordered <= i,
        decreases block.len() - i,
    {
        let ghost before = out@;
        let ghost at = i as int;
        let is_vmem: bool = check_load(&block[i], true);
        let is_lds: bool = check_load(&block[i], false);
        if is_vmem || is_lds {
            let mut j: usize = i;
            while j < block.len() && check_load(&block[j], is_vmem)
                invariant
                    at <= j <= block.len(),
                    run_end(block@, at, is_vmem) == run_end(block@, j as int, is_vmem),
                ensures
                    at <= j <= block.len(),
                    j == run_end(block@, at, is_vmem),
                decreases block.len() - j,
            {
                j = j + 1;
            }
            let mut k: usize = j;
            while k < block.len() && !check_ends_region(&block[k], is_vmem)
                invariant
                    j <= k <= block.len(),
                    region_end(block@, j as int, is_vmem) == region_end(block@, k as int, is_vmem),
                ensures
                    j <= k <= block.len(),
                    k == region_end(block@, j as int, is_vmem),
                decreases block.len() - k,
            {
                k = k + 1;
            }
            let (mut moved, mut kept) = split_ops(ops, block, i, j, k, is_vmem);
            push_range(&mut out, block, i, j);
            reordered = reordered + moved.len();
            let ghost m = moved@;
            let ghost kp = kept@;
            out.append(&mut moved);
            out.append(&mut kept);
            let next: usize = if k < block.len() && check_wait(&block[k], is_vmem) {
                k + 1
            } else {
                k
            };
            push_range(&mut out, block, k, next);
            proof {
                lemma_ends(block@, at, is_vmem);
                assert(out@ + schedule_from(ops@, block@, next as int).0 =~= before + schedule_from(
                    ops@,
                    block@,
                    at,
                ).0);
            }
            i = next;
        } else {
            out.push(block[i].clone());
            i = i + 1;
            assert(out@ + schedule_from(ops@, block@, i as int).0 =~= before + schedule_from(
                ops@,
                block@,
                at,
            ).0);
        }
    }
    assert(out@ =~= total.0);
    (out, reordered)
}

/// Schedules every block: moves independent operations up between loads and the wait for
/// them. Returns the operations and how many of them moved.
pub fn post_regalloc_schedule(ops: Vec<Op>) -> (r: (Vec<Op>, usize))
    ensures
        (r.0@, r.1 as nat) == schedule_blocks(ops@, 0),
{
    let mut result: Vec<Op> = Vec::new();
    let mut total: usize = 0;
    let mut start: usize = 0;
    while start < ops.len()
        invariant
            start <= ops.len(),
            total <= start,
            schedule_blocks(ops@, 0).0 == result@ + schedule_blocks(ops@, start as int).0,
            schedule_blocks(ops@, 0).1 == total + schedule_blocks(ops@, start as int).1,
        decreases ops.len() - start,
    {
        let ghost before = result@;
        let mut end: usize = start + 1;
        while end < ops.len() && !matches!(&ops[end], OpOf::Label(_))
            invariant
                start < end <= ops.len(),
                block_end(ops@, start + 1) == block_end(ops@, end as int),
            ensures
                start < end <= ops.len(),
                end == block_end(ops@, start + 1),
            decreases ops.len() - end,
        {
            end = end + 1;
        }
        let mut block: Vec<Op> = Vec::new();
        push_range(&mut block, &ops, start, end);
        assert(block@ =~= ops@.subrange(start as int, end as int));
        let (mut scheduled, moved) = schedule_one_block(&ops, &block);
        let ghost first = scheduled@;
        result.append(&mut scheduled);
        total = total + moved;
        assert(result@ + schedule_blocks(ops@, end as int).0 =~= before + schedule_blocks(
            ops@,
            start as int,
        ).0);
        start = end;
    }
    assert(result@ =~= schedule_blocks(ops@, 0).0);
    (result, total)
}

proof fn lemma_split_permutes(ops: Seq<Op>, loads: Seq<Op>, region: Seq<Op>, vmem: bool)
    ensures
        (split_region(ops, loads, region, vmem).0 + split_region(
            ops,
            loads,
            region,
            vmem,
        ).1).to_multiset() == region.to_multiset(),
    decreases region.len(),
{
    broadcast use vstd::seq_lib::group_to_multiset_ensures;

    let (moved, kept) = split_region(ops, loads, region, vmem);
    vstd::seq_lib::lemma_multiset_commutative(moved, kept);
    if region.len() > 0 {
        let init = region.drop_last();
        let (m, k) = split_region(ops, loads, init, vmem);
        lemma_split_permutes(ops, loads, init, vmem);
        vstd::seq_lib::lemma_multiset_commutative(m, k);
        assert(region =~= init.push(region.last()));
        assert((moved + kept).to_multiset() =~= region.to_multiset());
    } else {
        assert(moved + kept =~= region);
    }
}

proof fn lemma_schedule_from_permutes(ops: Seq<Op>, block: Seq<Op>, i: int)
    requires
        0 <= i <= block.len(),
    ensures
        schedule_from(ops, block, i).0.to_multiset() == block.skip(i).to_multiset(),
    decreases block.len() - i,
{
    broadcast use vstd::seq_lib::group_to_multiset_ensures;

    if i == block.len() {
        assert(block.skip(i) =~= schedule_from(ops, block, i).0);
    } else if is_vmem_load(block[i]) || is_lds_load(block[i]) {
        let vmem = is_vmem_load(block[i]);
        let j = run_end(block, i, vmem);
        let k = region_end(block, j, vmem);
        lemma_ends(block, i, vmem);
        lemma_ends(block, j, vmem);
        let loads = block.subrange(i, j);
        let region = block.subrange(j, k);
        let (moved, kept) = split_region(ops, loads, region, vmem);
        let next = if k < block.len() && is_wait(block[k], vmem) {
            k + 1
        } else {
            k
        };
        lemma_schedule_from_permutes(ops, block, next);
        lemma_split_permutes(ops, loads, region, vmem);
        let wait = block.subrange(k, next);
        let rest = schedule_from(ops, block, next).0;
        vstd::seq_lib::lemma_multiset_commutative(loads, moved + kept);
        vstd::seq_lib::lemma_multiset_commutative(loads + (moved + kept), wait);
        vstd::seq_lib::lemma_multiset_commutative(loads + (moved + kept) + wait, rest);
        vstd::seq_lib::lemma_multiset_commutative(loads, region);
        vstd::seq_lib::lemma_multiset_commutative(loads + region, wait);
        vstd::seq_lib::lemma_multiset_commutative(loads + region + wait, block.skip(next));
        assert(loads + region + wait + block.skip(next) =~= block.skip(i));
        assert(schedule_from(ops, block, i).0 =~= loads + (moved + kept) + wait + rest);
    } else {
        lemma_schedule_from_permutes(ops, block, i + 1);
        let one = seq![block[i]];
        vstd::seq_lib::lemma_multiset_commutative(one, schedule_from(ops, block, i + 1).0);
        vstd::seq_lib::lemma_multiset_commutative(one, block.skip(i + 1));
        assert(one + block.skip(i + 1) =~= block.skip(i));
    }
}

proof fn lemma_schedule_blocks_permutes(ops: Seq<Op>, start: int)
    requires
        0 <= start <= ops.len(),
    ensures
        schedule_blocks(ops, start).0.to_multiset() == ops.skip(start).to_multiset(),
    decreases ops.len() - start,
{
    broadcast use vstd::seq_lib::group_to_multiset_ensures;

    if start == ops.len() {
        assert(ops.skip(start) =~= schedule_blocks(ops, start).0);
    } else {
        let end = block_end(ops, start + 1);
        lemma_block_end(ops, start + 1);
        let block = ops.subrange(start, end);
        lemma_schedule_from_permutes(ops, block, 0);
        assert(block.skip(0) =~= block);
        lemma_schedule_blocks_permutes(ops, end);
        vstd::seq_lib::lemma_multiset_commutative(
            schedule_block(ops, block).0,
            schedule_blocks(ops, end).0,
        );
        vstd::seq_lib::lemma_multiset_commutative(block, ops.skip(end));
        assert(block + ops.skip(end) =~= ops.skip(start));
    }
}

/// Scheduling loses and adds nothing: the result holds the same operations, each as
/// often.
pub proof fn schedule_is_permutation(ops: Seq<Op>)
    ensures
        schedule_blocks(ops, 0).0.to_multiset() == ops.to_multiset(),
        schedule_blocks(ops, 0).0.len() == ops.len(),
{
    broadcast use vstd::seq_lib::group_to_multiset_ensures;

    lemma_schedule_blocks_permutes(ops, 0);
    assert(ops.skip(0) =~= ops);
    assert(schedule_blocks(ops, 0).0.to_multiset().len() == ops.to_multiset().len());
}

/// Whether the operation at `j` behind some loads moves up.
pub open spec fn moves_up(
    ops: Seq<Op>,
    loads: Seq<Op>,
    region: Seq<Op>,
    j: int,
    vmem: bool,
) -> bool {
    may_hoist(ops, region[j], loads, split_region(ops, loads, region.take(j), vmem).1, vmem)
}

proof fn lemma_kept_contains(
    ops: Seq<Op>,
    loads: Seq<Op>,
    region: Seq<Op>,
    n: int,
    i: int,
    vmem: bool,
)
    requires
        0 <= i < n <= region.len(),
        !moves_up(ops, loads, region, i, vmem),
    ensures
        split_region(ops, loads, region.take(n), vmem).1.contains(region[i]),
    decreases n,
{
    let here = region.take(n);
    assert(here.drop_last() =~= region.take(n - 1));
    let kept = split_region(ops, loads, here, vmem).1;
    if i == n - 1 {
        assert(kept.last() == region[i]);
    } else {
        lemma_kept_contains(ops, loads, region, n - 1, i, vmem);
        let before = split_region(ops, loads, region.take(n - 1), vmem).1;
        let w = choose|w: int| 0 <= w < before.len() && before[w] == region[i];
        assert(kept[w] == region[i]);
    }
}

/// An operation moves up only past operations that it does not depend on and that do not
/// depend on it, by a vector or scalar register, by a condition code, or by which lanes take
/// part, and past no wait that makes sure of a register that it names.
pub proof fn hoisting_respects_dependencies(
    ops: Seq<Op>,
    loads: Seq<Op>,
    region: Seq<Op>,
    i: int,
    j: int,
    vmem: bool,
)
    requires
        0 <= i < j < region.len(),
        !moves_up(ops, loads, region, i, vmem),
        moves_up(ops, loads, region, j, vmem),
    ensures
        can_pass(region[j], region[i]),
        needs_no_wait(region[j], region[i], ops),
        !op_has_side_effects(region[j]),
{
    lemma_kept_contains(ops, loads, region, j, i, vmem);
}

/// Between loads and the end of the region behind them stands nothing that holds all operations
/// back, so that none passes the wait for these loads, a barrier, a branch, or a change of the
/// lanes.
pub proof fn regions_hold_nothing_back(block: Seq<Op>, i: int, k: int, vmem: bool)
    requires
        0 <= i <= k < region_end(block, i, vmem),
    ensures
        k < block.len(),
        !ends_region(block[k], vmem),
    decreases k - i,
{
    if i < k {
        regions_hold_nothing_back(block, i + 1, k, vmem);
    }
}

// ── Software pipelining ──
/// Whether an operation of the body keeps a loop from being pipelined.
pub open spec fn blocks_pipelining(op: Op) -> bool {
    op is LdsLoad || op is LdsStore || op is DsLoadB32 || op is DsStoreB32 || op is DsLoadB64
        || op is DsStoreB64 || op is DsLoadB128 || op is DsStoreB128
}

/// The global loads of a body, in order.
pub open spec fn loads_in(body: Seq<Op>) -> Seq<Op>
    decreases body.len(),
{
    if body.len() == 0 {
        Seq::empty()
    } else if body.last() is GlobalLoad {
        loads_in(body.drop_last()).push(body.last())
    } else {
        loads_in(body.drop_last())
    }
}

/// The operations of a body that are not global loads, in order.
pub open spec fn others_in(body: Seq<Op>) -> Seq<Op>
    decreases body.len(),
{
    if body.len() == 0 {
        Seq::empty()
    } else if body.last() is GlobalLoad {
        others_in(body.drop_last())
    } else {
        others_in(body.drop_last()).push(body.last())
    }
}

/// The last operation of a body that waits for all global loads, or -1.
pub open spec fn last_full_wait(body: Seq<Op>) -> int
    decreases body.len(),
{
    if body.len() == 0 {
        -1
    } else if body.last() == OpOf::<String>::WaitVmcnt(0) {
        body.len() - 1
    } else {
        last_full_wait(body.drop_last())
    }
}

/// Whether a load can be issued in front of another operation: that does not write what the
/// load reads, nor name what it writes.
pub open spec fn can_lead(load: Op, op: Op) -> bool {
    &&& disjoint(op_vreg_uses(load), op_vreg_defs(op))
    &&& disjoint(op_vreg_defs(load), op_vreg_refs(op))
}

/// Whether the global loads of a body can be issued in front of its other operations.
pub open spec fn loads_can_lead(body: Seq<Op>) -> bool {
    forall|j: int, k: int|
        0 <= j < k < body.len() && !(#[trigger] body[j] is GlobalLoad) && #[trigger] body[k]
            is GlobalLoad ==> can_lead(body[k], body[j])
}

/// Whether a loop body can be pipelined: it has global loads that can be issued in front of
/// the rest, a wait behind all of them, and nothing that forbids it.
pub open spec fn can_pipeline(body: Seq<Op>) -> bool {
    let w = last_full_wait(body);
    &&& forall|k: int| 0 <= k < body.len() ==> !blocks_unroll(#[trigger] body[k])
    &&& forall|k: int| 0 <= k < body.len() ==> !blocks_pipelining(#[trigger] body[k])
    &&& loads_in(body).len() > 0
    &&& w >= 0
    &&& forall|k: int| w <= k < body.len() ==> !(#[trigger] body[k] is GlobalLoad)
    &&& loads_can_lead(body)
}

/// A body with its wait first and its loads last.
pub open spec fn pipelined_body(body: Seq<Op>) -> Seq<Op> {
    let w = last_full_wait(body);
    seq![body[w]] + others_in(body.take(w)) + others_in(body.skip(w + 1)) + loads_in(body)
}

/// The operations with the loop from header `h` to back edge `i` pipelined, if it can be:
/// the loads of the first round are issued in front of the loop, and those of the next round
/// at the end of each.
pub open spec fn pipeline_one(ops: Seq<Op>, h: int, i: int) -> Seq<Op> {
    let body = ops.subrange(h + 3, i - 1);
    if can_pipeline(body) {
        ops.take(h) + loads_in(body) + ops.subrange(h, h + 3) + pipelined_body(body) + ops.skip(
            i - 1,
        )
    } else {
        ops
    }
}

/// The operations with the given loops pipelined, the last one first, and how many of
/// them were.
pub open spec fn pipeline_spans(ops: Seq<Op>, spans: Seq<(int, int)>) -> (Seq<Op>, nat)
    decreases spans.len(),
{
    if spans.len() == 0 {
        (ops, 0)
    } else {
        let (h, i) = spans.last();
        let rest = pipeline_spans(pipeline_one(ops, h, i), spans.drop_last());
        (rest.0, rest.1 + if can_pipeline(ops.subrange(h + 3, i - 1)) {
            1nat
        } else {
            0
        })
    }
}

/// Appends the global loads of `[from, to)`.
fn push_loads(out: &mut Vec<Op>, ops: &Vec<Op>, from: usize, to: usize)
    requires
        from <= to <= ops@.len(),
    ensures
        final(out)@ == old(out)@ + loads_in(ops@.subrange(from as int, to as int)),
{
    let mut i: usize = from;
    assert(ops@.subrange(from as int, from as int) =~= Seq::empty());
    while i < to
        invariant
            from <= i <= to <= ops@.len(),
            out@ == old(out)@ + loads_in(ops@.subrange(from as int, i as int)),
        decreases to - i,
    {
        let ghost next = ops@.subrange(from as int, i + 1);
        assert(next.drop_last() =~= ops@.subrange(from as int, i as int));
        assert(next.last() == ops@[i as int]);
        let ghost before = out@;
        if matches!(&ops[i], OpOf::GlobalLoad { .. }) {
            out.push(ops[i].clone());
        }
        i = i + 1;
        assert(out@ =~= old(out)@ + loads_in(next));
    }
}

/// Appends the operations of `[from, to)` that are not global loads.
fn push_others(out: &mut Vec<Op>, ops: &Vec<Op>, from: usize, to: usize)
    requires
        from <= to <= ops@.len(),
    ensures
        final(out)@ == old(out)@ + others_in(ops@.subrange(from as int, to as int)),
{
    let mut i: usize = from;
    assert(ops@.subrange(from as int, from as int) =~= Seq::empty());
    while i < to
        invariant
            from <= i <= to <= ops@.len(),
            out@ == old(out)@ + others_in(ops@.subrange(from as int, i as int)),
        decreases to - i,
    {
        let ghost next = ops@.subrange(from as int, i + 1);
        assert(next.drop_last() =~= ops@.subrange(from as int, i as int));
        assert(next.last() == ops@[i as int]);
        if !matches!(&ops[i], OpOf::GlobalLoad { .. }) {
            out.push(ops[i].clone());
        }
        i = i + 1;
        assert(out@ =~= old(out)@ + others_in(next));
    }
}

/// Whether the global loads of `[from, to)` can be issued in front of its other operations.
fn check_leads(ops: &Vec<Op>, from: usize, to: usize) -> (r: bool)
    requires
        from <= to <= ops@.len(),
    ensures
        r == loads_can_lead(ops@.subrange(from as int, to as int)),
{
    let ghost body = ops@.subrange(from as int, to as int);
    let mut k: usize = from;
    while k < to
        invariant
            from <= k <= to <= ops@.len(),
            body == ops@.subrange(from as int, to as int),
            forall|x: int, y: int|
                0 <= x < y < k - from && !(#[trigger] body[x] is GlobalLoad) && #[trigger] body[y]
                    is GlobalLoad ==> can_lead(body[y], body[x]),
        decreases to - k,
    {
        assert(body[k - from] == ops@[k as int]);
        if matches!(&ops[k], OpOf::GlobalLoad { .. }) {
            let uses = ops[k].vreg_uses();
            let defs = ops[k].vreg_defs();
            let mut j: usize = from;
            while j < k
                invariant
                    from <= j <= k < to <= ops@.len(),
                    body == ops@.subrange(from as int, to as int),
                    body[k - from] == ops@[k as int],
                    ops@[k as int] is GlobalLoad,
                    uses@ == op_vreg_uses(ops@[k as int]),
                    defs@ == op_vreg_defs(ops@[k as int]),
                    forall|x: int|
                        0 <= x < j - from && !(#[trigger] body[x] is GlobalLoad) ==> can_lead(
                            body[k - from],
                            body[x],
                        ),
                decreases k - j,
            {
                assert(body[j - from] == ops@[j as int]);
                if !matches!(&ops[j], OpOf::GlobalLoad { .. }) {
                    let other_defs = ops[j].vreg_defs();
                    let other_refs = ops[j].vreg_refs();
                    if !vregs_disjoint(&uses, &other_defs) || !vregs_disjoint(&defs, &other_refs) {
                        assert(!can_lead(body[k - from], body[j - from]));
                        return false;
                    }
                }
                j = j + 1;
            }
        }
        k = k + 1;
    }
    true
}

/// The position of the wait of a body that can be pipelined.
fn pipeline_wait(ops: &Vec<Op>, from: usize, to: usize) -> (r: Option<usize>)
    requires
        from <= to <= ops@.len(),
    ensures
        match r {
            Some(w) => can_pipeline(ops@.subrange(from as int, to as int)) && from <= w < to && w
                == from + last_full_wait(ops@.subrange(from as int, to as int)),
            None => !can_pipeline(ops@.subrange(from as int, to as int)),
        },
{
    let ghost body = ops@.subrange(from as int, to as int);
    if !is_safe_to_unroll(ops.as_slice(), from, to) {
        proof {
            let k = choose|k: int| from <= k < to && blocks_unroll(#[trigger] ops@[k]);
            assert(body[k - from] == ops@[k]);
        }
        return None;
    }
    assert forall|k: int| 0 <= k < body.len() implies !blocks_unroll(#[trigger] body[k]) by {
        assert(body[k] == ops@[from + k]);
    }
    let mut loads: bool = false;
    let mut load_since_wait: bool = false;
    let mut wait: Option<usize> = None;
    let mut blocked: bool = false;
    let mut i: usize = from;
    assert(body.take(0) =~= Seq::empty());
    while i < to
        invariant
            from <= i <= to <= ops@.len(),
            body == ops@.subrange(from as int, to as int),
            loads == (loads_in(body.take(i - from)).len() > 0),
            match wait {
                Some(w) => from <= w < i && w - from == last_full_wait(body.take(i - from)),
                None => last_full_wait(body.take(i - from)) == -1,
            },
            wait matches Some(w) ==> load_since_wait == exists|k: int|
                w - from <= k < i - from && (#[trigger] body[k] is GlobalLoad),
            blocked == exists|k: int|
                0 <= k < i - from && blocks_pipelining(#[trigger] body[k]),
        decreases to - i,
    {
        proof {
            let next = body.take(i + 1 - from);
            assert(next.drop_last() =~= body.take(i - from));
            assert(next.last() == ops@[i as int]);
            assert(body[i - from] == ops@[i as int]);
        }
        match &ops[i] {
            OpOf::GlobalLoad { .. } => {
                loads = true;
                load_since_wait = true;
            },
            OpOf::WaitVmcnt(0) => {
                wait = Some(i);
                load_since_wait = false;
            },
            OpOf::LdsLoad { .. }
            | OpOf::LdsStore { .. }
            | OpOf::DsLoadB32 { .. }
            | OpOf::DsStoreB32 { .. }
            | OpOf::DsLoadB64 { .. }
            | OpOf::DsStoreB64 { .. }
            | OpOf::DsLoadB128 { .. }
            | OpOf::DsStoreB128 { .. } => {
                blocked = true;
            },
            _ => {},
        }
        i = i + 1;
    }
    assert(body.take(i - from) =~= body);
    match wait {
        Some(w) => {
            if loads && !load_since_wait && !blocked && check_leads(ops, from, to) {
                Some(w)
            } else {
                None
            }
        },
        None => None,
    }
}

/// Pipelines the loop from header `h` to back edge `i`, if it can be.
fn pipeline_loop(ops: Vec<Op>, h: usize, i: usize) -> (r: (Vec<Op>, bool))
    requires
        h + 3 < i - 1,
        i < ops.len(),
    ensures
        r.0@ == pipeline_one(ops@, h as int, i as int),
        r.1 == can_pipeline(ops@.subrange(h + 3, i - 1)),
{
    let from: usize = h + 3;
    let to: usize = i - 1;
    let ghost body = ops@.subrange(from as int, to as int);
    match pipeline_wait(&ops, from, to) {
        None => (ops, false),
        Some(w) => {
            let mut out: Vec<Op> = Vec::new();
            push_range(&mut out, &ops, 0, h);
            push_loads(&mut out, &ops, from, to);
            push_range(&mut out, &ops, h, from);
            out.push(ops[w].clone());
            push_others(&mut out, &ops, from, w);
            push_others(&mut out, &ops, w + 1, to);
            push_loads(&mut out, &ops, from, to);
            push_range(&mut out, &ops, to, ops.len());
            proof {
                let p = w - from;
                assert(body.take(p) =~= ops@.subrange(from as int, w as int));
                assert(body.skip(p + 1) =~= ops@.subrange(w + 1, to as int));
                assert(body[p] == ops@[w as int]);
                assert(out@ =~= pipeline_one(ops@, h as int, i as int));
            }
            (out, true)
        },
    }
}

proof fn lemma_parts_len(body: Seq<Op>)
    ensures
        loads_in(body).len() + others_in(body).len() == body.len(),
        -1 <= last_full_wait(body) < body.len(),
        last_full_wait(body) >= 0 ==> body[last_full_wait(body)] == OpOf::<String>::WaitVmcnt(0),
    decreases body.len(),
{
    if body.len() > 0 {
        lemma_parts_len(body.drop_last());
    }
}

proof fn lemma_no_loads(body: Seq<Op>)
    requires
        forall|k: int| 0 <= k < body.len() ==> !(#[trigger] body[k] is GlobalLoad),
    ensures
        loads_in(body) =~= Seq::empty(),
    decreases body.len(),
{
    if body.len() > 0 {
        lemma_no_loads(body.drop_last());
    }
}

proof fn lemma_loads_concat(a: Seq<Op>, b: Seq<Op>)
    ensures
        loads_in(a + b) == loads_in(a) + loads_in(b),
        others_in(a + b) == others_in(a) + others_in(b),
    decreases b.len(),
{
    if b.len() == 0 {
        assert(a + b =~= a);
        assert(loads_in(a) + loads_in(b) =~= loads_in(a));
        assert(others_in(a) + others_in(b) =~= others_in(a));
    } else {
        lemma_loads_concat(a, b.drop_last());
        assert((a + b).drop_last() =~= a + b.drop_last());
        assert(loads_in(a + b) =~= loads_in(a) + loads_in(b));
        assert(others_in(a + b) =~= others_in(a) + others_in(b));
    }
}

proof fn lemma_parts_permute(body: Seq<Op>)
    ensures
        (loads_in(body) + others_in(body)).to_multiset() == body.to_multiset(),
    decreases body.len(),
{
    broadcast use vstd::seq_lib::group_to_multiset_ensures;

    vstd::seq_lib::lemma_multiset_commutative(loads_in(body), others_in(body));
    if body.len() > 0 {
        let init = body.drop_last();
        lemma_parts_permute(init);
        vstd::seq_lib::lemma_multiset_commutative(loads_in(init), others_in(init));
        assert(body =~= init.push(body.last()));
        assert((loads_in(body) + others_in(body)).to_multiset() =~= body.to_multiset());
    } else {
        assert(loads_in(body) + others_in(body) =~= body);
    }
}

/// Pipelining a loop body only reorders it: the same operations, each as often. The loads
/// in front of the loop body come in addition.
pub proof fn pipelined_body_is_permutation(body: Seq<Op>)
    requires
        can_pipeline(body),
    ensures
        pipelined_body(body).to_multiset() == body.to_multiset(),
        pipelined_body(body).len() == body.len(),
{
    broadcast use vstd::seq_lib::group_to_multiset_ensures;

    let w = last_full_wait(body);
    lemma_parts_len(body);
    let front = body.take(w);
    let back = body.skip(w + 1);
    let wait = seq![body[w]];
    assert(body =~= front + wait + back);
    lemma_parts_permute(front);
    lemma_parts_permute(back);
    lemma_no_loads(back);
    lemma_loads_concat(front + wait, back);
    lemma_loads_concat(front, wait);
    lemma_no_loads(wait);
    assert(loads_in(body) =~= loads_in(front));
    vstd::seq_lib::lemma_multiset_commutative(wait, others_in(front));
    vstd::seq_lib::lemma_multiset_commutative(wait + others_in(front), others_in(back));
    vstd::seq_lib::lemma_multiset_commutative(
        wait + others_in(front) + others_in(back),
        loads_in(body),
    );
    vstd::seq_lib::lemma_multiset_commutative(loads_in(front), others_in(front));
    vstd::seq_lib::lemma_multiset_commutative(loads_in(back), others_in(back));
    vstd::seq_lib::lemma_multiset_commutative(front, wait);
    vstd::seq_lib::lemma_multiset_commutative(front + wait, back);
    assert(pipelined_body(body).to_multiset() =~= body.to_multiset());
    assert(pipelined_body(body).to_multiset().len() == body.to_multiset().len());
}

/// A pipelined loop issues the loads of its first round in front of its header, where they
/// run once, and those of every next round at the end of the round before: what stands
/// between them is the header with its test, then the wait and the rest of the body.
pub proof fn pipelined_loads_lead_their_round(ops: Seq<Op>, h: int, i: int)
    requires
        0 <= h,
        h + 3 < i - 1,
        i < ops.len(),
        can_pipeline(ops.subrange(h + 3, i - 1)),
    ensures
        ({
            let out = pipeline_one(ops, h, i);
            let body = ops.subrange(h + 3, i - 1);
            let loads = loads_in(body);
            let n = loads.len();
            let b = body.len();
            &&& out.take(h) == ops.take(h)
            &&& out.subrange(h, h + n) == loads
            &&& out.subrange(h + n, h + n + 3) == ops.subrange(h, h + 3)
            &&& out[h + n + 3] == OpOf::<String>::WaitVmcnt(0)
            &&& out.subrange(h + n + 3 + b - n, h + n + 3 + b) == loads
            &&& out.skip(h + n + 3 + b as int) == ops.skip(i - 1)
        }),
{
    let out = pipeline_one(ops, h, i);
    let body = ops.subrange(h + 3, i - 1);
    let loads = loads_in(body);
    let n = loads.len();
    let b = body.len();
    pipelined_body_is_permutation(body);
    lemma_parts_len(body);
    let p = pipelined_body(body);
    assert(p.skip(b - n) =~= loads);
    assert(p[0] == body[last_full_wait(body)]);
    assert(out.take(h) =~= ops.take(h));
    assert(out.subrange(h, h + n) =~= loads);
    assert(out.subrange(h + n, h + n + 3) =~= ops.subrange(h, h + 3));
    assert(out.subrange(h + n + 3 + b - n, h + n + 3 + b) =~= p.skip(b - n));
    assert(out.skip(h + n + 3 + b as int) =~= ops.skip(i - 1));
}

/// A pipelined loop makes the code longer by its loads.
pub proof fn pipelining_adds_loads(ops: Seq<Op>, h: int, i: int)
    requires
        0 <= h,
        h + 3 < i - 1,
        i < ops.len(),
    ensures
        pipeline_one(ops, h, i).len() == ops.len() + if can_pipeline(ops.subrange(h + 3, i - 1)) {
            loads_in(ops.subrange(h + 3, i - 1)).len() as int
        } else {
            0
        },
{
    let body = ops.subrange(h + 3, i - 1);
    if can_pipeline(body) {
        pipelined_body_is_permutation(body);
    }
}

/// Pipelines the counted loops, the last one first: the loads of the next round are
/// issued at the end of a round. Returns the operations and how many loops were
/// pipelined.
pub fn software_pipeline(ops: Vec<Op>) -> (r: (Vec<Op>, usize))
    ensures
        (r.0@, r.1 as nat) == pipeline_spans(ops@, loop_spans(ops@)),
{
    let loops = detect_loops(ops.as_slice());
    let ghost spans = loop_spans(ops@);
    let ghost len = ops@.len();
    proof {
        lemma_backedges(ops@, ops@.len() as int);
        assert forall|k: int| 0 <= k < loops@.len() implies spans[k] == (
            (#[trigger] loops@[k]).header_idx as int,
            loops@[k].backedge_idx as int,
        ) by {
            assert(is_loop(ops@, backedges(ops@, ops@.len() as int)[k], loops@[k]));
        }
    }
    let mut count: usize = 0;
    let mut result: Vec<Op> = ops;
    let mut k: usize = loops.len();
    assert(spans.take(k as int) =~= spans);
    while k > 0
        invariant
            k <= loops@.len() == spans.len(),
            result@.len() >= len,
            forall|j: int|
                0 <= j < loops@.len() ==> spans[j] == (
                    (#[trigger] loops@[j]).header_idx as int,
                    loops@[j].backedge_idx as int,
                ) && loops@[j].header_idx + 3 < loops@[j].backedge_idx - 1
                    && loops@[j].backedge_idx < len,
            count + k <= loops.len(),
            pipeline_spans(ops@, spans).0 == pipeline_spans(result@, spans.take(k as int)).0,
            pipeline_spans(ops@, spans).1 == count + pipeline_spans(
                result@,
                spans.take(k as int),
            ).1,
        decreases k,
    {
        k = k - 1;
        let h: usize = loops[k].header_idx;
        let i: usize = loops[k].backedge_idx;
        proof {
            assert(spans.take(k + 1).drop_last() =~= spans.take(k as int));
            assert(spans.take(k + 1).last() == spans[k as int]);
            assert(loops@[k as int].header_idx == h);
            pipelining_adds_loads(result@, h as int, i as int);
        }
        let (next, pipelined) = pipeline_loop(result, h, i);
        result = next;
        if pipelined {
            count = count + 1;
        }
    }
    assert(spans.take(0) =~= Seq::empty());
    (result, count)
}

// ── All passes ──
/// What the passes did.
#[derive(Clone, Copy, Debug)]
pub struct OptStats {
    pub original_ops: usize,
    pub final_ops: usize,
    pub dead_ops_removed: usize,
    pub consts_folded: usize,
    pub algebraic_simplified: usize,
    pub copies_propagated: usize,
    pub cse_eliminated: usize,
    pub instructions_combined: usize,
    pub licm_hoisted: usize,
    pub loops_unrolled: usize,
    pub sw_pipelined: usize,
    pub waitcnts_removed: usize,
    pub ops_reordered: usize,
    pub strength_reduced: usize,
    pub loads_coalesced: usize,
}

impl OptStats {
    /// Nothing done.
    pub open spec fn none() -> OptStats {
        OptStats {
            original_ops: 0,
            final_ops: 0,
            dead_ops_removed: 0,
            consts_folded: 0,
            algebraic_simplified: 0,
            copies_propagated: 0,
            cse_eliminated: 0,
            instructions_combined: 0,
            licm_hoisted: 0,
            loops_unrolled: 0,
            sw_pipelined: 0,
            waitcnts_removed: 0,
            ops_reordered: 0,
            strength_reduced: 0,
            loads_coalesced: 0,
        }
    }
}

impl Default for OptStats {
    fn default() -> (r: Self)
        ensures
            r == OptStats::none(),
    {
        OptStats {
            original_ops: 0,
            final_ops: 0,
            dead_ops_removed: 0,
            consts_folded: 0,
            algebraic_simplified: 0,
            copies_propagated: 0,
            cse_eliminated: 0,
            instructions_combined: 0,
            licm_hoisted: 0,
            loops_unrolled: 0,
            sw_pipelined: 0,
            waitcnts_removed: 0,
            ops_reordered: 0,
            strength_reduced: 0,
            loads_coalesced: 0,
        }
    }
}

/// Which passes may run.
#[derive(Clone, Copy, Debug, PartialEq, Eq, Structural)]
pub struct Passes {
    /// Constant folding.
    pub fold: bool,
    /// Algebraic simplification.
    pub simplify: bool,
    /// Copy propagation.
    pub copies: bool,
    /// Removal of common subexpressions.
    pub cse: bool,
    /// Instruction combining.
    pub combine: bool,
    /// Motion of operations out of loops.
    pub licm: bool,
    /// Simplification together with the removal of dead operations.
    pub clean_simplify: bool,
    /// Removal of dead operations.
    pub dead: bool,
    /// Removal of waits for nothing.
    pub waits: bool,
    /// Scheduling.
    pub schedule: bool,
}

impl Passes {
    /// All passes.
    pub open spec fn all() -> Passes {
        Passes {
            fold: true,
            simplify: true,
            copies: true,
            cse: true,
            combine: true,
            licm: true,
            clean_simplify: true,
            dead: true,
            waits: true,
            schedule: true,
        }
    }
}

impl Default for Passes {
    fn default() -> (r: Self)
        ensures
            r == Passes::all(),
    {
        Passes {
            fold: true,
            simplify: true,
            copies: true,
            cse: true,
            combine: true,
            licm: true,
            clean_simplify: true,
            dead: true,
            waits: true,
            schedule: true,
        }
    }
}

/// How far passes go, and which of them may run.
#[derive(Clone, Copy, Debug, PartialEq, Eq, Structural)]
pub struct OptConfig {
    /// 0: none; 1: from constant folding to the motion out of loops; 2: also unrolling and
    /// strength reduction; 3: also removal of dead operations and coalescing; from 4 on also
    /// removal of waits and scheduling.
    pub level: u32,
    /// Which passes may run.
    pub passes: Passes,
}

impl Default for OptConfig {
    fn default() -> (r: Self)
        ensures
            r.level == 4,
            r.passes == Passes::all(),
    {
        OptConfig { level: 4, passes: Passes::default() }
    }
}

/// In how many rounds dead operations are removed at most.
pub const CLEAN_ROUNDS: u32 = 5;

/// The operations after constant folding, if it runs.
pub open spec fn after_folding(ops: Seq<Op>, c: OptConfig) -> Seq<Op> {
    if c.level >= 1 && c.passes.fold {
        folded(ops)
    } else {
        ops
    }
}

/// The operations after algebraic simplification, if it runs.
pub open spec fn after_simplifying(ops: Seq<Op>, c: OptConfig) -> Seq<Op> {
    let before = after_folding(ops, c);
    if c.level >= 1 && c.passes.simplify {
        simplified(before)
    } else {
        before
    }
}

/// The operations after copy propagation, if it runs.
pub open spec fn after_copies(ops: Seq<Op>, groups: Seq<CoalescedGroup>, c: OptConfig) -> Seq<Op> {
    let before = after_simplifying(ops, c);
    if c.level >= 1 && c.passes.copies {
        propagated(before, groups)
    } else {
        before
    }
}

/// The operations after the removal of common subexpressions, if it runs.
pub open spec fn after_cse(ops: Seq<Op>, groups: Seq<CoalescedGroup>, c: OptConfig) -> Seq<Op> {
    let before = after_copies(ops, groups, c);
    if c.level >= 1 && c.passes.cse {
        without_common(before)
    } else {
        before
    }
}

/// The operations after instruction combining, if it runs.
pub open spec fn after_combining(ops: Seq<Op>, groups: Seq<CoalescedGroup>, c: OptConfig) -> Seq<
    Op,
> {
    let before = after_cse(ops, groups, c);
    if c.level >= 1 && c.passes.combine {
        combined(before)
    } else {
        before
    }
}

/// The operations after the motion out of loops, if it runs, and how many moved.
pub open spec fn after_hoisting(ops: Seq<Op>, groups: Seq<CoalescedGroup>, c: OptConfig) -> (
    Seq<Op>,
    nat,
) {
    let before = after_combining(ops, groups, c);
    if c.level >= 1 && c.passes.licm {
        hoist_spans(before, loop_spans(before))
    } else {
        (before, 0)
    }
}

/// The operations after loop unrolling, if the level asks for it, and how many loops were
/// unrolled.
pub open spec fn after_unrolling(ops: Seq<Op>, groups: Seq<CoalescedGroup>, c: OptConfig) -> (
    Seq<Op>,
    nat,
) {
    let before = after_hoisting(ops, groups, c).0;
    if c.level >= 2 {
        unroll_spans(before, loop_spans(before))
    } else {
        (before, 0)
    }
}

/// The operations after strength reduction, if the level asks for it, and how many were
/// replaced.
pub open spec fn after_reduction(ops: Seq<Op>, groups: Seq<CoalescedGroup>, c: OptConfig) -> (
    Seq<Op>,
    nat,
) {
    let before = after_unrolling(ops, groups, c).0;
    if c.level >= 2 {
        reduce_spans(before, loop_spans(before))
    } else {
        (before, 0)
    }
}

/// The operations simplified, if that runs.
pub open spec fn clean_simplified(ops: Seq<Op>, p: Passes) -> Seq<Op> {
    if p.clean_simplify {
        simplified(ops)
    } else {
        ops
    }
}

/// The operations without dead ones, if their removal runs. Text that is not read may read
/// every register.
pub open spec fn clean_removed(ops: Seq<Op>, groups: Seq<CoalescedGroup>, p: Passes) -> Seq<Op> {
    if p.dead && !has_raw(ops) {
        needed(ops, ops, groups)
    } else {
        ops
    }
}

/// The operations after a number of rounds of simplification and removal of dead operations,
/// and how many were simplified and how many went.
pub open spec fn cleaned(
    ops: Seq<Op>,
    groups: Seq<CoalescedGroup>,
    p: Passes,
    rounds: nat,
) -> (Seq<Op>, nat, nat)
    decreases rounds,
{
    if rounds == 0 {
        (ops, 0, 0)
    } else {
        let simple = clean_simplified(ops, p);
        let less = clean_removed(simple, groups, p);
        let rest = cleaned(less, groups, p, (rounds - 1) as nat);
        let changed = if p.clean_simplify {
            simplified_count(ops, ops.len() as int)
        } else {
            0
        };
        (rest.0, changed + rest.1, (simple.len() - less.len() + rest.2) as nat)
    }
}

/// The operations after cleaning, if the level asks for it.
pub open spec fn after_cleaning(ops: Seq<Op>, groups: Seq<CoalescedGroup>, c: OptConfig) -> (
    Seq<Op>,
    nat,
    nat,
) {
    let before = after_reduction(ops, groups, c).0;
    if c.level >= 3 {
        cleaned(before, groups, c.passes, CLEAN_ROUNDS as nat)
    } else {
        (before, 0, 0)
    }
}

/// The operations after the removal of waits, if it runs.
pub open spec fn after_waits(ops: Seq<Op>, groups: Seq<CoalescedGroup>, c: OptConfig) -> Seq<Op> {
    let before = after_cleaning(ops, groups, c).0;
    if c.level >= 4 && c.passes.waits {
        without_idle_waits(before, before.len() as int)
    } else {
        before
    }
}

/// The operations after coalescing, if the level asks for it.
pub open spec fn after_coalescing(ops: Seq<Op>, groups: Seq<CoalescedGroup>, c: OptConfig) -> Seq<
    Op,
> {
    let before = after_waits(ops, groups, c);
    if c.level >= 3 {
        coalesced(before)
    } else {
        before
    }
}

/// The operations after all passes, and how many scheduling moved.
pub open spec fn optimized(ops: Seq<Op>, groups: Seq<CoalescedGroup>, c: OptConfig) -> (
    Seq<Op>,
    nat,
) {
    let before = after_coalescing(ops, groups, c);
    if c.level >= 4 && c.passes.schedule {
        schedule_blocks(before, 0)
    } else {
        (before, 0)
    }
}

/// What the passes count.
pub open spec fn stats_of(ops: Seq<Op>, groups: Seq<CoalescedGroup>, c: OptConfig) -> OptStats {
    let p = c.passes;
    let n = ops.len() as int;
    if c.level == 0 {
        OptStats::none()
    } else {
        OptStats {
            original_ops: ops.len() as usize,
            final_ops: optimized(ops, groups, c).0.len() as usize,
            consts_folded: if p.fold {
                fold_count(ops, n) as usize
            } else {
                0
            },
            algebraic_simplified: capped(
                if p.simplify {
                    simplified_count(after_folding(ops, c), n)
                } else {
                    0
                } + after_cleaning(ops, groups, c).1,
            ),
            copies_propagated: if p.copies {
                propagated_count(after_simplifying(ops, c), n, groups) as usize
            } else {
                0
            },
            cse_eliminated: if p.cse {
                common_count(after_copies(ops, groups, c), n) as usize
            } else {
                0
            },
            instructions_combined: if p.combine {
                combined_count(after_cse(ops, groups, c), n) as usize
            } else {
                0
            },
            licm_hoisted: capped(after_hoisting(ops, groups, c).1),
            loops_unrolled: after_unrolling(ops, groups, c).1 as usize,
            sw_pipelined: 0,
            strength_reduced: capped(after_reduction(ops, groups, c).1),
            dead_ops_removed: capped(after_cleaning(ops, groups, c).2),
            waitcnts_removed: (after_cleaning(ops, groups, c).0.len() - after_waits(
                ops,
                groups,
                c,
            ).len()) as usize,
            loads_coalesced: (after_waits(ops, groups, c).len() - after_coalescing(
                ops,
                groups,
                c,
            ).len()) as usize,
            ops_reordered: optimized(ops, groups, c).1 as usize,
        }
    }
}

/// Whether an operation is text that is not read.
fn find_raw(ops: &Vec<Op>) -> (r: bool)
    ensures
        r == has_raw(ops@),
{
    let mut k: usize = 0;
    while k < ops.len()
        invariant
            k <= ops.len(),
            forall|j: int| 0 <= j < k ==> !(#[trigger] ops@[j] is RawAsm),
        decreases ops.len() - k,
    {
        if matches!(&ops[k], OpOf::RawAsm(_)) {
            assert(ops@[k as int] is RawAsm);
            return true;
        }
        k = k + 1;
    }
    false
}

/// Simplifies and removes dead operations, round by round. Returns the operations, how many
/// were simplified, and how many went.
fn clean(ops: Vec<Op>, groups: &[CoalescedGroup], p: &Passes, rounds: u32) -> (r: (
    Vec<Op>,
    usize,
    usize,
))
    ensures
        r.0@ == cleaned(ops@, groups@, *p, rounds as nat).0,
        r.1 == capped(cleaned(ops@, groups@, *p, rounds as nat).1),
        r.2 == capped(cleaned(ops@, groups@, *p, rounds as nat).2),
{
    let mut cur: Vec<Op> = ops;
    let mut changed: usize = 0;
    let mut gone: usize = 0;
    let mut left: u32 = rounds;
    let ghost all = cleaned(ops@, groups@, *p, rounds as nat);
    while left > 0
        invariant
            all.0 == cleaned(cur@, groups@, *p, left as nat).0,
            capped(all.1) == capped(changed as nat + cleaned(cur@, groups@, *p, left as nat).1),
            capped(all.2) == capped(gone as nat + cleaned(cur@, groups@, *p, left as nat).2),
        decreases left,
    {
        let ghost before = cur@;
        if p.clean_simplify {
            let (simple, count) = simplify(cur);
            cur = simple;
            changed = changed.saturating_add(count);
        }
        let ghost simple = cur@;
        assert(simple == clean_simplified(before, *p));
        if p.dead && !find_raw(&cur) {
            let n: usize = cur.len();
            cur = remove_dead_once(&cur, groups);
            gone = gone.saturating_add(n - cur.len());
        }
        assert(cur@ == clean_removed(simple, groups@, *p));
        left = left - 1;
    }
    (cur, changed, gone)
}

/// Runs the passes that the configuration asks for. Copy propagation and the removal of dead
/// operations leave registers of the groups alone.
pub fn optimize(ops: Vec<Op>, groups: &[CoalescedGroup], config: &OptConfig) -> (r: (
    Vec<Op>,
    OptStats,
))
    ensures
        r.0@ == optimized(ops@, groups@, *config).0,
        r.1 == stats_of(ops@, groups@, *config),
{
    let mut stats = OptStats::default();
    let ghost raw = ops@;
    let ghost g = groups@;
    let ghost c = *config;
    if config.level == 0 {
        return (ops, stats);
    }
    let p = config.passes;
    stats.original_ops = ops.len();
    let mut cur: Vec<Op> = ops;
    if p.fold {
        let (next, count) = fold_constants(cur);
        cur = next;
        stats.consts_folded = count;
    }
    if p.simplify {
        let (next, count) = simplify(cur);
        cur = next;
        stats.algebraic_simplified = count;
    }
    if p.copies {
        let (next, count) = propagate_copies(cur, groups);
        cur = next;
        stats.copies_propagated = count;
    }
    if p.cse {
        let (next, count) = remove_common(cur);
        cur = next;
        stats.cse_eliminated = count;
    }
    if p.combine {
        let (next, count) = combine(cur);
        cur = next;
        stats.instructions_combined = count;
    }
    assert(cur@ == after_combining(raw, g, c));
    if p.licm {
        let (next, count) = hoist_invariants(cur);
        cur = next;
        stats.licm_hoisted = count;
    }
    assert(cur@ == after_hoisting(raw, g, c).0);
    if config.level <= 1 {
        stats.final_ops = cur.len();
        return (cur, stats);
    }
    let (unrolled, unroll_count) = loop_unroll(cur);
    stats.loops_unrolled = unroll_count;
    let (reduced, reduce_count) = strength_reduce(unrolled);
    stats.strength_reduced = reduce_count;
    assert(reduced@ == after_reduction(raw, g, c).0);
    if config.level <= 2 {
        stats.final_ops = reduced.len();
        return (reduced, stats);
    }
    let (clean_ops, simple_count, dead_count) = clean(reduced, groups, &p, CLEAN_ROUNDS);
    stats.algebraic_simplified = stats.algebraic_simplified.saturating_add(simple_count);
    stats.dead_ops_removed = dead_count;
    assert(clean_ops@ == after_cleaning(raw, g, c).0);
    let mut rest: Vec<Op> = clean_ops;
    if config.level >= 4 && p.waits {
        let (next, count) = remove_idle_waits(rest);
        rest = next;
        stats.waitcnts_removed = count;
    }
    let (merged, merge_count) = coalesce_loads(rest);
    stats.loads_coalesced = merge_count;
    assert(merged@ == after_coalescing(raw, g, c));
    if config.level >= 4 && p.schedule {
        let (scheduled, moved) = post_regalloc_schedule(merged);
        stats.ops_reordered = moved;
        stats.final_ops = scheduled.len();
        return (scheduled, stats);
    }
    stats.final_ops = merged.len();
    (merged, stats)
}

} // verus!
