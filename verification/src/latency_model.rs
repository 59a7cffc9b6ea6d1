//! Instruction latencies of GFX1100 in units of one simple vector operation.
//!
//! Each operation belongs to one hardware pipeline. A wave issues serially across
//! the pipelines, so the cycles of a sequence add up.
use vstd::prelude::*;

use crate::ir::{Op, OpOf};
use crate::text::{dec, push_dec};

verus! {

/// Hardware pipeline that executes an instruction.
#[derive(Clone, Copy, Debug, PartialEq, Eq, Hash, Structural)]
pub enum Pipeline {
    /// Vector arithmetic, logic, moves.
    VALU,
    /// Transcendental functions.
    TRANS,
    /// Scalar arithmetic.
    SALU,
    /// Global memory.
    VMEM,
    /// Local data share.
    LDS,
    /// Matrix multiply-accumulate.
    WMMA,
    /// Branches, waits, barriers.
    CTRL,
}

/// Counter that a wait instruction watches.
#[derive(Clone, Copy, Debug, PartialEq, Eq, Structural)]
pub enum WaitCounter {
    /// Global loads.
    VMcnt,
    /// Global stores.
    VScnt,
    /// Local data share and scalar memory.
    LGKMcnt,
}

/// Latency of one instruction.
#[derive(Clone, Copy, Debug)]
pub struct LatencyInfo {
    /// Pipeline that executes the instruction.
    pub pipeline: Pipeline,
    /// Cycles until a dependent instruction can use the result.
    pub latency: u32,
    /// Cycles between two such instructions.
    pub throughput: u32,
    /// Whether the instruction accesses memory.
    pub is_mem: bool,
    /// The counter that tracks it, for a memory instruction.
    pub wait_counter: Option<WaitCounter>,
}

/// The latency of an operation.
pub open spec fn latency_of<S>(op: OpOf<S>) -> LatencyInfo {
    match op {
        // Simple vector arithmetic, logic, shifts, moves, comparisons.
        OpOf::VAddF32 { .. }
        | OpOf::VSubF32 { .. }
        | OpOf::VMaxF32 { .. }
        | OpOf::VMinF32 { .. }
        | OpOf::VMinU32 { .. }
        | OpOf::VMov { .. }
        | OpOf::VMovFromSgpr { .. }
        | OpOf::VAddU32 { .. }
        | OpOf::VSubU32 { .. }
        | OpOf::VLshlrevB32 { .. }
        | OpOf::VLshrrevB32 { .. }
        | OpOf::VLshrrevB32Vgpr { .. }
        | OpOf::VAndB32 { .. }
        | OpOf::VOrB32 { .. }
        | OpOf::VXorB32 { .. }
        | OpOf::VCndmaskB32 { .. }
        | OpOf::VAddCo { .. }
        | OpOf::VAddCoCi { .. }
        | OpOf::VAddCOU32 { .. }
        | OpOf::VAddCCU32 { .. }
        | OpOf::VCmpLtU32 { .. }
        | OpOf::VCmpGeU32 { .. }
        | OpOf::VCmpGtF32Imm0 { .. }
        | OpOf::VCmpGtU32Imm { .. }
        | OpOf::VCmpEqU32Imm { .. }
        | OpOf::VCmpGeI32 { .. }
        | OpOf::VCmpEqF32 { .. }
        | OpOf::VCmpGtF32 { .. }
        | OpOf::VCmpLtF32 { .. }
        | OpOf::VCmpGeF32 { .. }
        | OpOf::VCmpEqU32 { .. }
        | OpOf::VCmpGtU32 { .. }
        | OpOf::VReadfirstlane { .. }
        | OpOf::RawAsm(_) => LatencyInfo {
            pipeline: Pipeline::VALU,
            latency: 1,
            throughput: 1,
            is_mem: false,
            wait_counter: None,
        },
        // Multiplication, fused multiply-add, conversions.
        OpOf::VMulF32 { .. }
        | OpOf::VFmaF32 { .. }
        | OpOf::VMulLoU32 { .. }
        | OpOf::VCvtF32U32 { .. }
        | OpOf::VCvtU32F32 { .. }
        | OpOf::VAndOrB32 { .. } => LatencyInfo {
            pipeline: Pipeline::VALU,
            latency: 2,
            throughput: 2,
            is_mem: false,
            wait_counter: None,
        },
        // Packing to bf16.
        OpOf::CvtPkBf16F32 { .. } => LatencyInfo {
            pipeline: Pipeline::VALU,
            latency: 4,
            throughput: 4,
            is_mem: false,
            wait_counter: None,
        },
        // Transcendentals.
        OpOf::VRcpF32 { .. }
        | OpOf::VRsqF32 { .. }
        | OpOf::VExpF32 { .. }
        | OpOf::VLog2F32 { .. }
        | OpOf::VSinF32 { .. }
        | OpOf::VCosF32 { .. }
        | OpOf::VSqrtF32 { .. } => LatencyInfo {
            pipeline: Pipeline::TRANS,
            latency: 1,
            throughput: 1,
            is_mem: false,
            wait_counter: None,
        },
        // Scalar arithmetic and the execution mask.
        OpOf::SAddU32 { .. }
        | OpOf::SSubU32 { .. }
        | OpOf::SAddcU32 { .. }
        | OpOf::SMulI32 { .. }
        | OpOf::SLshlB32 { .. }
        | OpOf::SLshrB32 { .. }
        | OpOf::SAndB32 { .. }
        | OpOf::SMov { .. }
        | OpOf::SCmpLtU32 { .. }
        | OpOf::SCmpGeU32 { .. }
        | OpOf::SCmpEqU32 { .. }
        | OpOf::SaveExec { .. }
        | OpOf::RestoreExec { .. }
        | OpOf::XorExec { .. }
        | OpOf::ClearVcc
        | OpOf::SMovToVcc { .. }
        | OpOf::ReadShaderCycles { .. } => LatencyInfo {
            pipeline: Pipeline::SALU,
            latency: 1,
            throughput: 1,
            is_mem: false,
            wait_counter: None,
        },
        // Global loads and atomics.
        OpOf::GlobalLoad { .. }
        | OpOf::BufferLoad { .. }
        | OpOf::GlobalAtomicAddF32 { .. }
        | OpOf::GlobalAtomicAddU32Rtn { .. } => LatencyInfo {
            pipeline: Pipeline::VMEM,
            latency: 47,
            throughput: 1,
            is_mem: true,
            wait_counter: Some(WaitCounter::VMcnt),
        },
        // Global stores.
        OpOf::GlobalStore { .. }
        | OpOf::BufferStore { .. } => LatencyInfo {
            pipeline: Pipeline::VMEM,
            latency: 24,
            throughput: 1,
            is_mem: true,
            wait_counter: Some(WaitCounter::VScnt),
        },
        // Local data share loads and scalar memory loads.
        OpOf::LdsLoad { .. }
        | OpOf::DsLoadB32 { .. }
        | OpOf::DsLoadB64 { .. }
        | OpOf::DsLoadB128 { .. }
        | OpOf::DsLoadU16 { .. }
        | OpOf::DsLoadU16D16 { .. }
        | OpOf::DsLoadU16D16Hi { .. }
        | OpOf::ScalarLoad { .. }
        | OpOf::SMemLoadDword { .. } => LatencyInfo {
            pipeline: Pipeline::LDS,
            latency: 7,
            throughput: 1,
            is_mem: true,
            wait_counter: Some(WaitCounter::LGKMcnt),
        },
        // Local data share stores.
        OpOf::LdsStore { .. }
        | OpOf::DsStoreB16 { .. }
        | OpOf::DsStoreB32 { .. }
        | OpOf::DsStoreB64 { .. }
        | OpOf::DsStoreB128 { .. } => LatencyInfo {
            pipeline: Pipeline::LDS,
            latency: 4,
            throughput: 1,
            is_mem: true,
            wait_counter: Some(WaitCounter::LGKMcnt),
        },
        // Lane swizzle.
        OpOf::DsSwizzle { .. } => LatencyInfo {
            pipeline: Pipeline::LDS,
            latency: 3,
            throughput: 2,
            is_mem: false,
            wait_counter: None,
        },
        // Matrix multiply-accumulate.
        OpOf::Wmma { .. } => LatencyInfo {
            pipeline: Pipeline::WMMA,
            latency: 4,
            throughput: 4,
            is_mem: false,
            wait_counter: None,
        },
        // Control flow and synchronization.
        OpOf::Branch(_)
        | OpOf::BranchScc0(_)
        | OpOf::BranchScc1(_)
        | OpOf::BranchVccz(_)
        | OpOf::Label(_)
        | OpOf::WaitVmcnt(_)
        | OpOf::WaitLgkmcnt(_)
        | OpOf::WaitVscnt(_)
        | OpOf::BufferWbl2 { .. }
        | OpOf::Barrier
        | OpOf::SBarrier
        | OpOf::Endpgm
        | OpOf::CaptureTgid { .. }
        | OpOf::ComputeGlobalIdX { .. } => LatencyInfo {
            pipeline: Pipeline::CTRL,
            latency: 0,
            throughput: 1,
            is_mem: false,
            wait_counter: None,
        },
        // Lane permute.
        OpOf::VPermlanex16B32 { .. } => LatencyInfo {
            pipeline: Pipeline::VALU,
            latency: 3,
            throughput: 2,
            is_mem: false,
            wait_counter: None,
        },
        // Wave reductions.
        OpOf::WaveReduceAddF32 { .. }
        | OpOf::WaveReduceMaxF32 { .. }
        | OpOf::WaveReduceMinF32 { .. } => LatencyInfo {
            pipeline: Pipeline::LDS,
            latency: 24,
            throughput: 24,
            is_mem: false,
            wait_counter: None,
        },
    }
}

/// The latency of an operation.
pub fn op_latency(op: &Op) -> (r: LatencyInfo)
    ensures
        r == latency_of(*op),
{
    match op {
        // Simple vector arithmetic, logic, shifts, moves, comparisons.
        OpOf::VAddF32 { .. }
        | OpOf::VSubF32 { .. }
        | OpOf::VMaxF32 { .. }
        | OpOf::VMinF32 { .. }
        | OpOf::VMinU32 { .. }
        | OpOf::VMov { .. }
        | OpOf::VMovFromSgpr { .. }
        | OpOf::VAddU32 { .. }
        | OpOf::VSubU32 { .. }
        | OpOf::VLshlrevB32 { .. }
        | OpOf::VLshrrevB32 { .. }
        | OpOf::VLshrrevB32Vgpr { .. }
        | OpOf::VAndB32 { .. }
        | OpOf::VOrB32 { .. }
        | OpOf::VXorB32 { .. }
        | OpOf::VCndmaskB32 { .. }
        | OpOf::VAddCo { .. }
        | OpOf::VAddCoCi { .. }
        | OpOf::VAddCOU32 { .. }
        | OpOf::VAddCCU32 { .. }
        | OpOf::VCmpLtU32 { .. }
        | OpOf::VCmpGeU32 { .. }
        | OpOf::VCmpGtF32Imm0 { .. }
        | OpOf::VCmpGtU32Imm { .. }
        | OpOf::VCmpEqU32Imm { .. }
        | OpOf::VCmpGeI32 { .. }
        | OpOf::VCmpEqF32 { .. }
        | OpOf::VCmpGtF32 { .. }
        | OpOf::VCmpLtF32 { .. }
        | OpOf::VCmpGeF32 { .. }
        | OpOf::VCmpEqU32 { .. }
        | OpOf::VCmpGtU32 { .. }
        | OpOf::VReadfirstlane { .. }
        | OpOf::RawAsm(_) => LatencyInfo {
            pipeline: Pipeline::VALU,
            latency: 1,
            throughput: 1,
            is_mem: false,
            wait_counter: None,
        },
        // Multiplication, fused multiply-add, conversions.
        OpOf::VMulF32 { .. }
        | OpOf::VFmaF32 { .. }
        | OpOf::VMulLoU32 { .. }
        | OpOf::VCvtF32U32 { .. }
        | OpOf::VCvtU32F32 { .. }
        | OpOf::VAndOrB32 { .. } => LatencyInfo {
            pipeline: Pipeline::VALU,
            latency: 2,
            throughput: 2,
            is_mem: false,
            wait_counter: None,
        },
        // Packing to bf16.
        OpOf::CvtPkBf16F32 { .. } => LatencyInfo {
            pipeline: Pipeline::VALU,
            latency: 4,
            throughput: 4,
            is_mem: false,
            wait_counter: None,
        },
        // Transcendentals.
        OpOf::VRcpF32 { .. }
        | OpOf::VRsqF32 { .. }
        | OpOf::VExpF32 { .. }
        | OpOf::VLog2F32 { .. }
        | OpOf::VSinF32 { .. }
        | OpOf::VCosF32 { .. }
        | OpOf::VSqrtF32 { .. } => LatencyInfo {
            pipeline: Pipeline::TRANS,
            latency: 1,
            throughput: 1,
            is_mem: false,
            wait_counter: None,
        },
        // Scalar arithmetic and the execution mask.
        OpOf::SAddU32 { .. }
        | OpOf::SSubU32 { .. }
        | OpOf::SAddcU32 { .. }
        | OpOf::SMulI32 { .. }
        | OpOf::SLshlB32 { .. }
        | OpOf::SLshrB32 { .. }
        | OpOf::SAndB32 { .. }
        | OpOf::SMov { .. }
        | OpOf::SCmpLtU32 { .. }
        | OpOf::SCmpGeU32 { .. }
        | OpOf::SCmpEqU32 { .. }
        | OpOf::SaveExec { .. }
        | OpOf::RestoreExec { .. }
        | OpOf::XorExec { .. }
        | OpOf::ClearVcc
        | OpOf::SMovToVcc { .. }
        | OpOf::ReadShaderCycles { .. } => LatencyInfo {
            pipeline: Pipeline::SALU,
            latency: 1,
            throughput: 1,
            is_mem: false,
            wait_counter: None,
        },
        // Global loads and atomics.
        OpOf::GlobalLoad { .. }
        | OpOf::BufferLoad { .. }
        | OpOf::GlobalAtomicAddF32 { .. }
        | OpOf::GlobalAtomicAddU32Rtn { .. } => LatencyInfo {
            pipeline: Pipeline::VMEM,
            latency: 47,
            throughput: 1,
            is_mem: true,
            wait_counter: Some(WaitCounter::VMcnt),
        },
        // Global stores.
        OpOf::GlobalStore { .. }
        | OpOf::BufferStore { .. } => LatencyInfo {
            pipeline: Pipeline::VMEM,
            latency: 24,
            throughput: 1,
            is_mem: true,
            wait_counter: Some(WaitCounter::VScnt),
        },
        // Local data share loads and scalar memory loads.
        OpOf::LdsLoad { .. }
        | OpOf::DsLoadB32 { .. }
        | OpOf::DsLoadB64 { .. }
        | OpOf::DsLoadB128 { .. }
        | OpOf::DsLoadU16 { .. }
        | OpOf::DsLoadU16D16 { .. }
        | OpOf::DsLoadU16D16Hi { .. }
        | OpOf::ScalarLoad { .. }
        | OpOf::SMemLoadDword { .. } => LatencyInfo {
            pipeline: Pipeline::LDS,
            latency: 7,
            throughput: 1,
            is_mem: true,
            wait_counter: Some(WaitCounter::LGKMcnt),
        },
        // Local data share stores.
        OpOf::LdsStore { .. }
        | OpOf::DsStoreB16 { .. }
        | OpOf::DsStoreB32 { .. }
        | OpOf::DsStoreB64 { .. }
        | OpOf::DsStoreB128 { .. } => LatencyInfo {
            pipeline: Pipeline::LDS,
            latency: 4,
            throughput: 1,
            is_mem: true,
            wait_counter: Some(WaitCounter::LGKMcnt),
        },
        // Lane swizzle.
        OpOf::DsSwizzle { .. } => LatencyInfo {
            pipeline: Pipeline::LDS,
            latency: 3,
            throughput: 2,
            is_mem: false,
            wait_counter: None,
        },
        // Matrix multiply-accumulate.
        OpOf::Wmma { .. } => LatencyInfo {
            pipeline: Pipeline::WMMA,
            latency: 4,
            throughput: 4,
            is_mem: false,
            wait_counter: None,
        },
        // Control flow and synchronization.
        OpOf::Branch(_)
        | OpOf::BranchScc0(_)
        | OpOf::BranchScc1(_)
        | OpOf::BranchVccz(_)
        | OpOf::Label(_)
        | OpOf::WaitVmcnt(_)
        | OpOf::WaitLgkmcnt(_)
        | OpOf::WaitVscnt(_)
        | OpOf::BufferWbl2 { .. }
        | OpOf::Barrier
        | OpOf::SBarrier
        | OpOf::Endpgm
        | OpOf::CaptureTgid { .. }
        | OpOf::ComputeGlobalIdX { .. } => LatencyInfo {
            pipeline: Pipeline::CTRL,
            latency: 0,
            throughput: 1,
            is_mem: false,
            wait_counter: None,
        },
        // Lane permute.
        OpOf::VPermlanex16B32 { .. } => LatencyInfo {
            pipeline: Pipeline::VALU,
            latency: 3,
            throughput: 2,
            is_mem: false,
            wait_counter: None,
        },
        // Wave reductions.
        OpOf::WaveReduceAddF32 { .. }
        | OpOf::WaveReduceMaxF32 { .. }
        | OpOf::WaveReduceMinF32 { .. } => LatencyInfo {
            pipeline: Pipeline::LDS,
            latency: 24,
            throughput: 24,
            is_mem: false,
            wait_counter: None,
        },
    }
}

/// Whether an operation can run while global loads are outstanding.
pub open spec fn overlaps_vmem<S>(op: OpOf<S>) -> bool {
    let info = latency_of(op);
    (info.pipeline is VALU || info.pipeline is SALU || info.pipeline is TRANS) && !info.is_mem
}

/// Whether an operation can run while accesses to the local data share are outstanding.
pub open spec fn overlaps_lds<S>(op: OpOf<S>) -> bool {
    let info = latency_of(op);
    (info.pipeline is VALU || info.pipeline is SALU || info.pipeline is TRANS
        || info.pipeline is VMEM) && !info.is_mem
}

/// Whether an operation can run while global loads are outstanding.
pub fn can_overlap_vmem(op: &Op) -> (r: bool)
    ensures
        r == overlaps_vmem(*op),
{
    let info = op_latency(op);
    matches!(info.pipeline, Pipeline::VALU | Pipeline::SALU | Pipeline::TRANS) && !info.is_mem
}

/// Whether an operation can run while accesses to the local data share are outstanding.
pub fn can_overlap_lds(op: &Op) -> (r: bool)
    ensures
        r == overlaps_lds(*op),
{
    let info = op_latency(op);
    matches!(
        info.pipeline,
        Pipeline::VALU | Pipeline::SALU | Pipeline::TRANS | Pipeline::VMEM
    ) && !info.is_mem
}

/// The throughput cycles of the operations of one pipeline.
pub open spec fn pipeline_cycles<S>(ops: Seq<OpOf<S>>, p: Pipeline) -> nat
    decreases ops.len(),
{
    if ops.len() == 0 {
        0
    } else {
        pipeline_cycles(ops.drop_last(), p) + if latency_of(ops.last()).pipeline == p {
            latency_of(ops.last()).throughput as nat
        } else {
            0
        }
    }
}

/// How many operations belong to one pipeline.
pub open spec fn pipeline_count<S>(ops: Seq<OpOf<S>>, p: Pipeline) -> nat
    decreases ops.len(),
{
    if ops.len() == 0 {
        0
    } else {
        pipeline_count(ops.drop_last(), p) + if latency_of(ops.last()).pipeline == p {
            1nat
        } else {
            0
        }
    }
}

/// The estimated cycles of a sequence: its arithmetic, and 47 cycles for each access to
/// global memory and 7 for each access to the local data share.
pub open spec fn total_cycles<S>(ops: Seq<OpOf<S>>) -> nat {
    pipeline_cycles(ops, Pipeline::VALU) + pipeline_cycles(ops, Pipeline::TRANS)
        + pipeline_cycles(ops, Pipeline::SALU) + pipeline_cycles(ops, Pipeline::WMMA) + 47
        * pipeline_count(ops, Pipeline::VMEM) + 7 * pipeline_count(ops, Pipeline::LDS)
}

/// A prefix has no more cycles or operations in any pipeline than the whole.
proof fn lemma_prefix<S>(ops: Seq<OpOf<S>>, n: int, p: Pipeline)
    requires
        0 <= n <= ops.len(),
    ensures
        pipeline_cycles(ops.take(n), p) <= pipeline_cycles(ops, p),
        pipeline_count(ops.take(n), p) <= pipeline_count(ops, p),
    decreases ops.len(),
{
    if n == ops.len() {
        assert(ops.take(n) =~= ops);
    } else {
        lemma_prefix(ops.drop_last(), n, p);
        assert(ops.drop_last().take(n) =~= ops.take(n));
    }
}

/// What a pipeline spends on two sequences in a row is what it spends on each of them.
proof fn lemma_pipeline_concat<S>(a: Seq<OpOf<S>>, b: Seq<OpOf<S>>, p: Pipeline)
    ensures
        pipeline_cycles(a + b, p) == pipeline_cycles(a, p) + pipeline_cycles(b, p),
        pipeline_count(a + b, p) == pipeline_count(a, p) + pipeline_count(b, p),
    decreases b.len(),
{
    if b.len() == 0 {
        assert(a + b =~= a);
    } else {
        lemma_pipeline_concat(a, b.drop_last(), p);
        assert((a + b).drop_last() =~= a + b.drop_last());
    }
}

/// Issue is serial: the estimate for two sequences in a row is the sum of the estimates.
pub proof fn estimate_is_additive<S>(a: Seq<OpOf<S>>, b: Seq<OpOf<S>>)
    ensures
        total_cycles(a + b) == total_cycles(a) + total_cycles(b),
{
    lemma_pipeline_concat(a, b, Pipeline::VALU);
    lemma_pipeline_concat(a, b, Pipeline::TRANS);
    lemma_pipeline_concat(a, b, Pipeline::SALU);
    lemma_pipeline_concat(a, b, Pipeline::WMMA);
    lemma_pipeline_concat(a, b, Pipeline::VMEM);
    lemma_pipeline_concat(a, b, Pipeline::LDS);
}

/// Every operation is counted in exactly one pipeline.
pub proof fn pipelines_partition<S>(ops: Seq<OpOf<S>>)
    ensures
        pipeline_count(ops, Pipeline::VALU) + pipeline_count(ops, Pipeline::TRANS)
            + pipeline_count(ops, Pipeline::SALU) + pipeline_count(ops, Pipeline::VMEM)
            + pipeline_count(ops, Pipeline::LDS) + pipeline_count(ops, Pipeline::WMMA)
            + pipeline_count(ops, Pipeline::CTRL) == ops.len(),
    decreases ops.len(),
{
    if ops.len() > 0 {
        pipelines_partition(ops.drop_last());
    }
}

/// An operation that overlaps with global memory also overlaps with the local data
/// share, and no memory access overlaps with either.
pub proof fn overlap_excludes_memory<S>(op: OpOf<S>)
    ensures
        overlaps_vmem(op) ==> overlaps_lds(op),
        latency_of(op).is_mem ==> !overlaps_lds(op),
        latency_of(op).is_mem <==> latency_of(op).wait_counter is Some,
{
}

/// Cycles by pipeline.
#[derive(Clone, Copy, Debug)]
pub struct PipelineBreakdown {
    pub valu_cycles: u32,
    pub trans_cycles: u32,
    pub salu_cycles: u32,
    pub wmma_cycles: u32,
    pub vmem_count: u32,
    pub lds_count: u32,
    pub ctrl_count: u32,
}

impl Default for PipelineBreakdown {
    fn default() -> (r: Self)
        ensures
            r.is_of(Seq::<Op>::empty()),
    {
        PipelineBreakdown {
            valu_cycles: 0,
            trans_cycles: 0,
            salu_cycles: 0,
            wmma_cycles: 0,
            vmem_count: 0,
            lds_count: 0,
            ctrl_count: 0,
        }
    }
}

impl PipelineBreakdown {
    /// Whether this is the breakdown of a sequence.
    pub open spec fn is_of(self, ops: Seq<Op>) -> bool {
        &&& self.valu_cycles == pipeline_cycles(ops, Pipeline::VALU)
        &&& self.trans_cycles == pipeline_cycles(ops, Pipeline::TRANS)
        &&& self.salu_cycles == pipeline_cycles(ops, Pipeline::SALU)
        &&& self.wmma_cycles == pipeline_cycles(ops, Pipeline::WMMA)
        &&& self.vmem_count == pipeline_count(ops, Pipeline::VMEM)
        &&& self.lds_count == pipeline_count(ops, Pipeline::LDS)
        &&& self.ctrl_count == pipeline_count(ops, Pipeline::CTRL)
    }

    /// The breakdown on one line.
    pub open spec fn text(self) -> Seq<char> {
        "VALU:"@ + dec(self.valu_cycles as nat) + " TRANS:"@ + dec(self.trans_cycles as nat)
            + " SALU:"@ + dec(self.salu_cycles as nat) + " WMMA:"@ + dec(self.wmma_cycles as nat)
            + " VMEM:×"@ + dec(self.vmem_count as nat) + " LDS:×"@ + dec(self.lds_count as nat)
            + " CTRL:×"@ + dec(self.ctrl_count as nat)
    }

    /// The breakdown on one line.
    pub fn to_text(&self) -> (r: String)
        ensures
            r@ == self.text(),
    {
        let mut r = String::new();
        r.append("VALU:");
        push_dec(&mut r, self.valu_cycles as u64);
        r.append(" TRANS:");
        push_dec(&mut r, self.trans_cycles as u64);
        r.append(" SALU:");
        push_dec(&mut r, self.salu_cycles as u64);
        r.append(" WMMA:");
        push_dec(&mut r, self.wmma_cycles as u64);
        r.append(" VMEM:×");
        push_dec(&mut r, self.vmem_count as u64);
        r.append(" LDS:×");
        push_dec(&mut r, self.lds_count as u64);
        r.append(" CTRL:×");
        push_dec(&mut r, self.ctrl_count as u64);
        assert(r@ =~= self.text());
        r
    }
}

/// Estimates the cycles that one wave takes for a sequence of operations.
pub fn estimate_cycles(ops: &[Op]) -> (r: (u32, PipelineBreakdown))
    requires
        total_cycles(ops@) <= u32::MAX,
        pipeline_count(ops@, Pipeline::CTRL) <= u32::MAX,
    ensures
        r.0 == total_cycles(ops@),
        r.1.is_of(ops@),
{
    let mut breakdown = PipelineBreakdown::default();
    let mut i: usize = 0;
    assert(ops@.take(0) =~= Seq::empty());
    while i < ops.len()
        invariant
            i <= ops.len(),
            breakdown.is_of(ops@.take(i as int)),
            total_cycles(ops@) <= u32::MAX,
            pipeline_count(ops@, Pipeline::CTRL) <= u32::MAX,
        decreases ops.len() - i,
    {
        let info = op_latency(&ops[i]);
        proof {
            let next = ops@.take(i + 1);
            assert(next.drop_last() =~= ops@.take(i as int));
            assert(next.last() == ops@[i as int]);
            lemma_prefix(ops@, i + 1, Pipeline::VALU);
            lemma_prefix(ops@, i + 1, Pipeline::TRANS);
            lemma_prefix(ops@, i + 1, Pipeline::SALU);
            lemma_prefix(ops@, i + 1, Pipeline::WMMA);
            lemma_prefix(ops@, i + 1, Pipeline::VMEM);
            lemma_prefix(ops@, i + 1, Pipeline::LDS);
            lemma_prefix(ops@, i + 1, Pipeline::CTRL);
        }
        match info.pipeline {
            Pipeline::VALU => {
                breakdown.valu_cycles = breakdown.valu_cycles + info.throughput;
            },
            Pipeline::TRANS => {
                breakdown.trans_cycles = breakdown.trans_cycles + info.throughput;
            },
            Pipeline::SALU => {
                breakdown.salu_cycles = breakdown.salu_cycles + info.throughput;
            },
            Pipeline::VMEM => {
                breakdown.vmem_count = breakdown.vmem_count + 1;
            },
            Pipeline::LDS => {
                breakdown.lds_count = breakdown.lds_count + 1;
            },
            Pipeline::WMMA => {
                breakdown.wmma_cycles = breakdown.wmma_cycles + info.throughput;
            },
            Pipeline::CTRL => {
                breakdown.ctrl_count = breakdown.ctrl_count + 1;
            },
        }
        i = i + 1;
    }
    assert(ops@.take(i as int) =~= ops@);
    let compute_cycles: u32 = breakdown.valu_cycles + breakdown.trans_cycles + breakdown.salu_cycles
        + breakdown.wmma_cycles;
    let vmem_latency: u32 = breakdown.vmem_count * 47;
    let lds_latency: u32 = breakdown.lds_count * 7;
    (compute_cycles + (vmem_latency + lds_latency), breakdown)
}

} // verus!
