//! What the latencies of operations have to do with their registers and with memory.
//!
//! The two tables of latencies are held against what operations read and write: a result that
//! comes from memory is waited for as long as memory takes, and only what leaves no result is
//! there at once.
use vstd::prelude::*;

use crate::insn_latency::{
    InsnClass, critical_path, critical_path_is_latest_result, insn_latency_of, issue_cycles,
    ready_at, stat_count, stat_kind, StatKind,
};
use crate::ir::{
    OpOf, op_has_side_effects, op_reads_scc, op_sreg_defs, op_sreg_uses, op_vreg_defs,
    op_vreg_uses, op_writes_scc, op_writes_vcc,
};
use crate::latency_model::{
    Pipeline, WaitCounter, latency_of, overlaps_lds, overlaps_vmem, pipeline_count,
    pipeline_cycles, total_cycles,
};

verus! {

// ── What operations touch ──
/// Whether an operation loads from global memory.
pub open spec fn loads_global<S>(op: OpOf<S>) -> bool {
    op is GlobalLoad || op is BufferLoad
}

/// Whether an operation stores to global memory.
pub open spec fn stores_global<S>(op: OpOf<S>) -> bool {
    op is GlobalStore || op is BufferStore
}

/// Whether an operation reads global memory, changes it and writes it back.
pub open spec fn updates_global<S>(op: OpOf<S>) -> bool {
    op is GlobalAtomicAddF32 || op is GlobalAtomicAddU32Rtn
}

/// Whether an operation loads from the local data share.
pub open spec fn loads_shared<S>(op: OpOf<S>) -> bool {
    op is LdsLoad || op is DsLoadB32 || op is DsLoadB64 || op is DsLoadB128 || op is DsLoadU16
        || op is DsLoadU16D16 || op is DsLoadU16D16Hi
}

/// Whether an operation stores to the local data share.
pub open spec fn stores_shared<S>(op: OpOf<S>) -> bool {
    op is LdsStore || op is DsStoreB16 || op is DsStoreB32 || op is DsStoreB64 || op is DsStoreB128
}

/// Whether an operation loads from scalar memory.
pub open spec fn loads_scalar<S>(op: OpOf<S>) -> bool {
    op is ScalarLoad || op is SMemLoadDword
}

/// Whether an operation touches memory.
pub open spec fn touches_memory<S>(op: OpOf<S>) -> bool {
    loads_global(op) || stores_global(op) || updates_global(op) || loads_shared(op)
        || stores_shared(op) || loads_scalar(op)
}

/// Whether an operation writes a register or a condition code.
pub open spec fn has_result<S>(op: OpOf<S>) -> bool {
    op_vreg_defs(op).len() > 0 || op_sreg_defs(op).len() > 0 || op_writes_vcc(op) || op_writes_scc(
        op,
    )
}

/// Whether an operation moves words between lanes.
pub open spec fn crosses<S>(op: OpOf<S>) -> bool {
    op is DsSwizzle || op is VPermlanex16B32 || op is VReadfirstlane || op is WaveReduceAddF32
        || op is WaveReduceMaxF32 || op is WaveReduceMinF32
}

/// Whether an operation is a function that has no simple circuit.
pub open spec fn is_transcendental<S>(op: OpOf<S>) -> bool {
    op is VExpF32 || op is VLog2F32 || op is VRcpF32 || op is VRsqF32 || op is VSqrtF32
        || op is VSinF32 || op is VCosF32
}

// ── Shader clock cycles ──
/// Results from memory take as long as their memory: 490 cycles from global memory, 20 from
/// the local data share, 25 from scalar memory. What is stored globally leaves nothing to wait
/// for.
pub proof fn results_take_as_long_as_their_memory<S>(op: OpOf<S>)
    ensures
        loads_global(op) || updates_global(op) <==> insn_latency_of(op).class == InsnClass::VMEM
            && insn_latency_of(op).result == 490,
        stores_global(op) <==> insn_latency_of(op).class == InsnClass::VMEM && insn_latency_of(
            op,
        ).result == 0,
        loads_shared(op) || stores_shared(op) <==> insn_latency_of(op).class == InsnClass::LDS,
        insn_latency_of(op).class == InsnClass::LDS ==> insn_latency_of(op).result == 20,
        loads_scalar(op) <==> insn_latency_of(op).class == InsnClass::SMEM,
        insn_latency_of(op).class == InsnClass::SMEM ==> insn_latency_of(op).result == 25,
        touches_memory(op) <==> latency_of(op).wait_counter is Some,
{
}

/// Only what has no result is there at once: an operation that writes a register or a
/// condition code has a latency, and it is never longer than that of global memory.
pub proof fn results_take_time<S>(op: OpOf<S>)
    ensures
        has_result(op) ==> 1 <= insn_latency_of(op).result <= 490,
        insn_latency_of(op).result == 0 <==> stores_global(op) || insn_latency_of(op).class
            == InsnClass::CTRL,
        insn_latency_of(op).class == InsnClass::CTRL ==> !has_result(op),
        1 <= insn_latency_of(op).issue <= insn_latency_of(op).result || insn_latency_of(op).issue
            == 1,
{
}

/// The unit of an operation is told by what it does: by the memory that it touches, by the
/// lanes that it joins, by the registers that it writes.
pub proof fn units_follow_from_what_is_done<S>(op: OpOf<S>)
    ensures
        op is Wmma <==> insn_latency_of(op).class == InsnClass::WMMA,
        op is Wmma <==> latency_of(op).pipeline == Pipeline::WMMA,
        crosses(op) <==> insn_latency_of(op).class == InsnClass::XLANE,
        is_transcendental(op) <==> insn_latency_of(op).class == InsnClass::VTRANS,
        is_transcendental(op) <==> latency_of(op).pipeline == Pipeline::TRANS,
        insn_latency_of(op).class != InsnClass::CVT,
        insn_latency_of(op).class == InsnClass::VALU ==> op_sreg_defs(op).len() == 0 && (
        op_vreg_defs(op).len() > 0 || op_writes_vcc(op)) && latency_of(op).pipeline
            == Pipeline::VALU && !touches_memory(op),
        op_writes_vcc(op) && op_vreg_uses(op).len() > 0 ==> insn_latency_of(op).class
            == InsnClass::VALU,
        op_vreg_defs(op).len() > 0 && !touches_memory(op) && !crosses(op) && !is_transcendental(op)
            && !(op is Wmma) && op_vreg_uses(op).len() > 0 && !(op is ComputeGlobalIdX)
            ==> insn_latency_of(op).class == InsnClass::VALU,
        op_writes_scc(op) && !(op is RawAsm) ==> insn_latency_of(op).class == InsnClass::SALU,
        op_sreg_defs(op).len() > 0 && !touches_memory(op) && !crosses(op) ==> insn_latency_of(
            op,
        ).class == InsnClass::SALU,
        insn_latency_of(op).class == InsnClass::SALU ==> !touches_memory(op) && op_vreg_uses(
            op,
        ).len() == 0,
        op is Label || op is Branch || op is BranchScc0 || op is BranchScc1 || op is BranchVccz
            || op is Endpgm || op is Barrier || op is SBarrier || op is WaitVmcnt
            || op is WaitLgkmcnt || op is WaitVscnt || op is BufferWbl2 <==> insn_latency_of(
            op,
        ).class == InsnClass::CTRL,
{
}

/// The cycles of the units that touch no memory: one for simple arithmetic, sixteen for
/// functions at a quarter of the rate and half as many again for the square root, 36 for a
/// matrix, and for moves between lanes two, or four by the local data share's way. Five such
/// moves with five sums make a reduction.
pub proof fn cycles_by_unit<S>(op: OpOf<S>)
    ensures
        insn_latency_of(op).class == InsnClass::VALU || insn_latency_of(op).class
            == InsnClass::SALU ==> insn_latency_of(op).result == 1,
        is_transcendental(op) ==> insn_latency_of(op).recip_throughput == 4 && insn_latency_of(
            op,
        ).result == if op is VSqrtF32 {
            24u32
        } else {
            16u32
        },
        op is Wmma ==> insn_latency_of(op).result == 36,
        op is DsSwizzle ==> insn_latency_of(op).result == 4,
        op is VPermlanex16B32 || op is VReadfirstlane ==> insn_latency_of(op).result == 2,
        op is WaveReduceAddF32 || op is WaveReduceMaxF32 || op is WaveReduceMinF32
            ==> insn_latency_of(op).issue == 10 && insn_latency_of(op).recip_throughput == 10
            && insn_latency_of(op).result == 20,
        !(op is WaveReduceAddF32 || op is WaveReduceMaxF32 || op is WaveReduceMinF32)
            ==> insn_latency_of(op).issue == 1,
        !is_transcendental(op) ==> insn_latency_of(op).recip_throughput == insn_latency_of(
            op,
        ).issue,
{
}

/// A block with a global load cannot be done before its words are there: wherever the load
/// stands, its result takes 490 cycles more than the operations up to it take to issue.
pub proof fn loads_set_the_critical_path<S>(ops: Seq<OpOf<S>>, i: int)
    requires
        0 <= i < ops.len(),
        loads_global(ops[i]) || updates_global(ops[i]),
    ensures
        critical_path(ops) >= issue_cycles(ops.take(i + 1)) + 490,
        critical_path(ops) >= i + 491,
{
    critical_path_is_latest_result(ops);
    assert(ready_at(ops, i) <= critical_path(ops));
    crate::insn_latency::critical_path_bounds(ops.take(i + 1));
}

/// A block whose critical path is longer than its operations take to issue has a result to
/// wait for, and one of 490 cycles more has a load or an atomic update.
pub proof fn long_paths_have_loads<S>(ops: Seq<OpOf<S>>)
    requires
        critical_path(ops) >= issue_cycles(ops) + 37,
    ensures
        exists|i: int|
            0 <= i < ops.len() && (loads_global(#[trigger] ops[i]) || updates_global(ops[i])),
    decreases ops.len(),
{
    critical_path_is_latest_result(ops);
    if ops.len() > 0 {
        let i = choose|i: int|
            0 <= i < ops.len() && #[trigger] ready_at(ops, i) == critical_path(ops);
        lemma_issue_grows(ops, i + 1);
        assert(insn_latency_of(ops[i]).result >= 37);
        assert(loads_global(ops[i]) || updates_global(ops[i]));
    }
}

proof fn lemma_issue_grows<S>(ops: Seq<OpOf<S>>, n: int)
    requires
        0 <= n <= ops.len(),
    ensures
        issue_cycles(ops.take(n)) <= issue_cycles(ops),
    decreases ops.len(),
{
    if n == ops.len() {
        assert(ops.take(n) =~= ops);
    } else {
        lemma_issue_grows(ops.drop_last(), n);
        assert(ops.drop_last().take(n) =~= ops.take(n));
    }
}

/// Where operations are counted: loads and stores of global memory apart, atomic updates with
/// the stores, everything on other memories and between lanes by its unit.
pub proof fn counts_tell_loads_from_stores<S>(op: OpOf<S>)
    ensures
        stat_kind(op) == StatKind::VmemLoad <==> loads_global(op),
        stat_kind(op) == StatKind::VmemStore <==> stores_global(op) || updates_global(op),
        stat_kind(op) == StatKind::VmemLoad ==> !op_has_side_effects(op) && op_vreg_defs(op).len()
            > 0,
        stat_kind(op) == StatKind::VmemStore ==> op_has_side_effects(op),
        stat_kind(op) == StatKind::Lds <==> loads_shared(op) || stores_shared(op) || crosses(op),
        stat_kind(op) == StatKind::Vtrans <==> is_transcendental(op),
        stat_kind(op) == StatKind::Wmma <==> op is Wmma,
        stat_kind(op) == StatKind::Valu ==> !touches_memory(op) && (op_vreg_defs(op).len() > 0
            || op_writes_vcc(op)),
        loads_scalar(op) ==> stat_kind(op) == StatKind::Salu,
        stat_kind(op) == StatKind::Ctrl ==> !has_result(op),
{
}

/// The loads that are counted are the operations that load, one by one.
pub proof fn loads_are_counted<S>(ops: Seq<OpOf<S>>, op: OpOf<S>)
    ensures
        stat_count(ops.push(op), StatKind::VmemLoad) == stat_count(ops, StatKind::VmemLoad)
            + if loads_global(op) {
            1nat
        } else {
            0
        },
        stat_count(Seq::<OpOf<S>>::empty(), StatKind::VmemLoad) == 0,
{
    assert(ops.push(op).drop_last() =~= ops);
}

// ── Units of one vector operation ──
/// Which counter tracks an operation: that of loads, that of stores, or that of the local data
/// share and scalar memory; and nothing else is tracked.
pub proof fn counters_follow_from_memory<S>(op: OpOf<S>)
    ensures
        latency_of(op).wait_counter == Some(WaitCounter::VMcnt) <==> loads_global(op)
            || updates_global(op),
        latency_of(op).wait_counter == Some(WaitCounter::VScnt) <==> stores_global(op),
        latency_of(op).wait_counter == Some(WaitCounter::LGKMcnt) <==> loads_shared(op)
            || stores_shared(op) || loads_scalar(op),
        latency_of(op).is_mem <==> touches_memory(op),
        latency_of(op).wait_counter == Some(WaitCounter::VScnt) ==> !has_result(op),
{
}

/// The pipeline of an operation, and its cycles there: memory by its kind, 47 for what comes
/// from global memory and 24 for what goes there, 7 and 4 for the local data share; twice a
/// simple operation for products and conversions, and four times for packing and matrices.
pub proof fn pipelines_follow_from_what_is_done<S>(op: OpOf<S>)
    ensures
        latency_of(op).pipeline == Pipeline::VMEM <==> loads_global(op) || stores_global(op)
            || updates_global(op),
        loads_global(op) || updates_global(op) ==> latency_of(op).latency == 47,
        stores_global(op) ==> latency_of(op).latency == 24,
        loads_shared(op) || loads_scalar(op) ==> latency_of(op).pipeline == Pipeline::LDS
            && latency_of(op).latency == 7,
        stores_shared(op) ==> latency_of(op).pipeline == Pipeline::LDS && latency_of(op).latency
            == 4,
        latency_of(op).pipeline == Pipeline::LDS <==> loads_shared(op) || stores_shared(op)
            || loads_scalar(op) || (crosses(op) && !(op is VPermlanex16B32)
            && !(op is VReadfirstlane)),
        touches_memory(op) ==> latency_of(op).throughput == 1,
        op is VMulF32 || op is VFmaF32 || op is VMulLoU32 || op is VCvtF32U32 || op is VCvtU32F32
            || op is VAndOrB32 ==> latency_of(op).latency == 2 && latency_of(op).throughput == 2,
        op is CvtPkBf16F32 || op is Wmma ==> latency_of(op).latency == 4 && latency_of(
            op,
        ).throughput == 4,
        op is DsSwizzle || op is VPermlanex16B32 ==> latency_of(op).latency == 3 && latency_of(
            op,
        ).throughput == 2,
        op is WaveReduceAddF32 || op is WaveReduceMaxF32 || op is WaveReduceMinF32 ==> latency_of(
            op,
        ).latency == 24 && latency_of(op).throughput == 24,
        op_writes_scc(op) && !(op is RawAsm) ==> latency_of(op).pipeline == Pipeline::SALU,
        op_reads_scc(op) && !op_writes_scc(op) ==> latency_of(op).pipeline == Pipeline::CTRL,
        latency_of(op).pipeline == Pipeline::SALU || latency_of(op).pipeline == Pipeline::TRANS
            ==> latency_of(op).latency == 1 && latency_of(op).throughput == 1,
        op_writes_vcc(op) && op_vreg_uses(op).len() > 0 ==> latency_of(op).pipeline
            == Pipeline::VALU && latency_of(op).latency == 1,
        latency_of(op).latency == 0 <==> latency_of(op).pipeline == Pipeline::CTRL,
        latency_of(op).pipeline == Pipeline::CTRL ==> !touches_memory(op) && !op_writes_vcc(op)
            && !op_writes_scc(op) && op_sreg_uses(op).len() == 0,
{
}

/// Simple vector arithmetic takes one cycle, and one more of it fits wherever one did: it
/// overlaps with every access to memory. Nothing that touches memory overlaps.
pub proof fn arithmetic_overlaps_with_memory<S>(op: OpOf<S>)
    ensures
        latency_of(op).pipeline == Pipeline::VALU && !(op is VMulF32 || op is VFmaF32
            || op is VMulLoU32 || op is VCvtF32U32 || op is VCvtU32F32 || op is VAndOrB32
            || op is CvtPkBf16F32 || op is VPermlanex16B32) ==> latency_of(op).latency == 1
            && latency_of(op).throughput == 1,
        insn_latency_of(op).class == InsnClass::VALU || is_transcendental(op) ==> overlaps_vmem(op)
            && overlaps_lds(op),
        touches_memory(op) || op is Wmma || op is DsSwizzle ==> !overlaps_vmem(op) && !overlaps_lds(
            op,
        ),
        overlaps_vmem(op) <==> overlaps_lds(op),
{
}

/// A sequence takes at least what each of its operations takes: every access to global memory
/// 47 cycles, every one to the local data share 7, and all other work its throughput.
pub proof fn every_operation_is_estimated<S>(ops: Seq<OpOf<S>>, op: OpOf<S>)
    ensures
        total_cycles(ops.push(op)) == total_cycles(ops) + if loads_global(op) || stores_global(op)
            || updates_global(op) {
            47nat
        } else if latency_of(op).pipeline == Pipeline::LDS {
            7
        } else if latency_of(op).pipeline == Pipeline::CTRL {
            0
        } else {
            latency_of(op).throughput as nat
        },
        total_cycles(Seq::<OpOf<S>>::empty()) == 0,
{
    assert(ops.push(op).drop_last() =~= ops);
    lemma_pushed(ops, op, Pipeline::VALU);
    lemma_pushed(ops, op, Pipeline::TRANS);
    lemma_pushed(ops, op, Pipeline::SALU);
    lemma_pushed(ops, op, Pipeline::WMMA);
    lemma_pushed(ops, op, Pipeline::VMEM);
    lemma_pushed(ops, op, Pipeline::LDS);
}

proof fn lemma_pushed<S>(ops: Seq<OpOf<S>>, op: OpOf<S>, p: Pipeline)
    ensures
        pipeline_cycles(ops.push(op), p) == pipeline_cycles(ops, p) + if latency_of(op).pipeline
            == p {
            latency_of(op).throughput as nat
        } else {
            0
        },
        pipeline_count(ops.push(op), p) == pipeline_count(ops, p) + if latency_of(op).pipeline
            == p {
            1nat
        } else {
            0
        },
{
    assert(ops.push(op).drop_last() =~= ops);
}

} // verus!
