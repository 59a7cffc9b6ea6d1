//! Instruction latencies of GFX1100 in shader clock cycles, and what follows from
//! them for a straight block of operations.
use vstd::prelude::*;

use crate::ir::{Op, OpOf};

verus! {

/// Functional unit of an instruction.
#[derive(Clone, Copy, Debug, PartialEq, Eq, Hash, Structural)]
pub enum InsnClass {
    /// Simple vector arithmetic.
    VALU,
    /// Transcendental functions, at a quarter of the rate.
    VTRANS,
    /// Global memory.
    VMEM,
    /// Local data share.
    LDS,
    /// Scalar arithmetic.
    SALU,
    /// Scalar memory.
    SMEM,
    /// Matrix multiply-accumulate.
    WMMA,
    /// Branches, barriers, waits.
    CTRL,
    /// Conversions.
    CVT,
    /// Moves across lanes.
    XLANE,
}

/// Latency and throughput of one instruction.
#[derive(Clone, Copy, Debug)]
pub struct InsnLatency {
    /// Functional unit.
    pub class: InsnClass,
    /// Cycles that the issue port is occupied.
    pub issue: u32,
    /// Cycles until the result can be read.
    pub result: u32,
    /// Cycles between two instructions of the class.
    pub recip_throughput: u32,
}

/// The latency of an operation.
pub open spec fn insn_latency_of<S>(op: OpOf<S>) -> InsnLatency {
    match op {
        // Vector arithmetic, logic, shifts, moves, comparisons, conversions.
        OpOf::VAddF32 { .. }
        | OpOf::VMulF32 { .. }
        | OpOf::VSubF32 { .. }
        | OpOf::VMaxF32 { .. }
        | OpOf::VMinF32 { .. }
        | OpOf::VAddU32 { .. }
        | OpOf::VSubU32 { .. }
        | OpOf::VMinU32 { .. }
        | OpOf::VAndB32 { .. }
        | OpOf::VXorB32 { .. }
        | OpOf::VOrB32 { .. }
        | OpOf::VFmaF32 { .. }
        | OpOf::VMov { .. }
        | OpOf::VMovFromSgpr { .. }
        | OpOf::VMulLoU32 { .. }
        | OpOf::VLshlrevB32 { .. }
        | OpOf::VLshrrevB32 { .. }
        | OpOf::VLshrrevB32Vgpr { .. }
        | OpOf::VAddCo { .. }
        | OpOf::VAddCoCi { .. }
        | OpOf::VAddCOU32 { .. }
        | OpOf::VAddCCU32 { .. }
        | OpOf::VCndmaskB32 { .. }
        | OpOf::CvtPkBf16F32 { .. }
        | OpOf::VCvtF32U32 { .. }
        | OpOf::VCvtU32F32 { .. }
        | OpOf::VAndOrB32 { .. }
        | OpOf::VCmpLtU32 { .. }
        | OpOf::VCmpGeU32 { .. }
        | OpOf::VCmpGtF32Imm0 { .. }
        | OpOf::VCmpGtU32Imm { .. }
        | OpOf::VCmpEqU32Imm { .. }
        | OpOf::VCmpGeI32 { .. }
        | OpOf::VCmpEqF32 { .. }
        | OpOf::VCmpGtF32 { .. }
        | OpOf::VCmpLtF32 { .. }
        | OpOf::VCmpGeF32 { .. }
        | OpOf::VCmpEqU32 { .. }
        | OpOf::VCmpGtU32 { .. }
        | OpOf::RawAsm(_) => InsnLatency {
            class: InsnClass::VALU,
            issue: 1,
            result: 1,
            recip_throughput: 1,
        },
        // Transcendentals.
        OpOf::VExpF32 { .. }
        | OpOf::VRcpF32 { .. }
        | OpOf::VRsqF32 { .. }
        | OpOf::VLog2F32 { .. }
        | OpOf::VSinF32 { .. }
        | OpOf::VCosF32 { .. } => InsnLatency {
            class: InsnClass::VTRANS,
            issue: 1,
            result: 16,
            recip_throughput: 4,
        },
        // Square root takes longer.
        OpOf::VSqrtF32 { .. } => InsnLatency {
            class: InsnClass::VTRANS,
            issue: 1,
            result: 24,
            recip_throughput: 4,
        },
        // Global loads and atomics.
        OpOf::GlobalLoad { .. }
        | OpOf::BufferLoad { .. }
        | OpOf::GlobalAtomicAddF32 { .. }
        | OpOf::GlobalAtomicAddU32Rtn { .. } => InsnLatency {
            class: InsnClass::VMEM,
            issue: 1,
            result: 490,
            recip_throughput: 1,
        },
        // Stores leave nothing to wait for.
        OpOf::GlobalStore { .. }
        | OpOf::BufferStore { .. } => InsnLatency {
            class: InsnClass::VMEM,
            issue: 1,
            result: 0,
            recip_throughput: 1,
        },
        // Local data share.
        OpOf::LdsLoad { .. }
        | OpOf::LdsStore { .. }
        | OpOf::DsLoadB32 { .. }
        | OpOf::DsLoadU16 { .. }
        | OpOf::DsLoadU16D16 { .. }
        | OpOf::DsLoadU16D16Hi { .. }
        | OpOf::DsLoadB64 { .. }
        | OpOf::DsLoadB128 { .. }
        | OpOf::DsStoreB16 { .. }
        | OpOf::DsStoreB32 { .. }
        | OpOf::DsStoreB64 { .. }
        | OpOf::DsStoreB128 { .. } => InsnLatency {
            class: InsnClass::LDS,
            issue: 1,
            result: 20,
            recip_throughput: 1,
        },
        // Lane swizzle.
        OpOf::DsSwizzle { .. } => InsnLatency {
            class: InsnClass::XLANE,
            issue: 1,
            result: 4,
            recip_throughput: 1,
        },
        // Other cross-lane moves.
        OpOf::VReadfirstlane { .. }
        | OpOf::VPermlanex16B32 { .. } => InsnLatency {
            class: InsnClass::XLANE,
            issue: 1,
            result: 2,
            recip_throughput: 1,
        },
        // Scalar arithmetic and the execution mask.
        OpOf::SAddU32 { .. }
        | OpOf::SSubU32 { .. }
        | OpOf::SAddcU32 { .. }
        | OpOf::SAndB32 { .. }
        | OpOf::SMulI32 { .. }
        | OpOf::SLshlB32 { .. }
        | OpOf::SLshrB32 { .. }
        | OpOf::SMov { .. }
        | OpOf::SCmpLtU32 { .. }
        | OpOf::SCmpEqU32 { .. }
        | OpOf::SCmpGeU32 { .. }
        | OpOf::SMovToVcc { .. }
        | OpOf::CaptureTgid { .. }
        | OpOf::ComputeGlobalIdX { .. }
        | OpOf::ClearVcc
        | OpOf::SaveExec { .. }
        | OpOf::RestoreExec { .. }
        | OpOf::XorExec { .. }
        | OpOf::ReadShaderCycles { .. } => InsnLatency {
            class: InsnClass::SALU,
            issue: 1,
            result: 1,
            recip_throughput: 1,
        },
        // Scalar memory.
        OpOf::ScalarLoad { .. }
        | OpOf::SMemLoadDword { .. } => InsnLatency {
            class: InsnClass::SMEM,
            issue: 1,
            result: 25,
            recip_throughput: 1,
        },
        // Matrix multiply-accumulate.
        OpOf::Wmma { .. } => InsnLatency {
            class: InsnClass::WMMA,
            issue: 1,
            result: 36,
            recip_throughput: 1,
        },
        // Control flow and synchronization.
        OpOf::Label(_)
        | OpOf::Branch(_)
        | OpOf::BranchScc1(_)
        | OpOf::BranchScc0(_)
        | OpOf::BranchVccz(_)
        | OpOf::Endpgm
        | OpOf::Barrier
        | OpOf::SBarrier
        | OpOf::WaitVmcnt(_)
        | OpOf::WaitLgkmcnt(_)
        | OpOf::WaitVscnt(_)
        | OpOf::BufferWbl2 { .. } => InsnLatency {
            class: InsnClass::CTRL,
            issue: 1,
            result: 0,
            recip_throughput: 1,
        },
        // Wave reductions: five swizzles and five combining steps.
        OpOf::WaveReduceAddF32 { .. }
        | OpOf::WaveReduceMaxF32 { .. }
        | OpOf::WaveReduceMinF32 { .. } => InsnLatency {
            class: InsnClass::XLANE,
            issue: 10,
            result: 20,
            recip_throughput: 10,
        },
    }
}

/// The latency of an operation.
pub fn op_latency(op: &Op) -> (r: InsnLatency)
    ensures
        r == insn_latency_of(*op),
{
    match op {
        // Vector arithmetic, logic, shifts, moves, comparisons, conversions.
        OpOf::VAddF32 { .. }
        | OpOf::VMulF32 { .. }
        | OpOf::VSubF32 { .. }
        | OpOf::VMaxF32 { .. }
        | OpOf::VMinF32 { .. }
        | OpOf::VAddU32 { .. }
        | OpOf::VSubU32 { .. }
        | OpOf::VMinU32 { .. }
        | OpOf::VAndB32 { .. }
        | OpOf::VXorB32 { .. }
        | OpOf::VOrB32 { .. }
        | OpOf::VFmaF32 { .. }
        | OpOf::VMov { .. }
        | OpOf::VMovFromSgpr { .. }
        | OpOf::VMulLoU32 { .. }
        | OpOf::VLshlrevB32 { .. }
        | OpOf::VLshrrevB32 { .. }
        | OpOf::VLshrrevB32Vgpr { .. }
        | OpOf::VAddCo { .. }
        | OpOf::VAddCoCi { .. }
        | OpOf::VAddCOU32 { .. }
        | OpOf::VAddCCU32 { .. }
        | OpOf::VCndmaskB32 { .. }
        | OpOf::CvtPkBf16F32 { .. }
        | OpOf::VCvtF32U32 { .. }
        | OpOf::VCvtU32F32 { .. }
        | OpOf::VAndOrB32 { .. }
        | OpOf::VCmpLtU32 { .. }
        | OpOf::VCmpGeU32 { .. }
        | OpOf::VCmpGtF32Imm0 { .. }
        | OpOf::VCmpGtU32Imm { .. }
        | OpOf::VCmpEqU32Imm { .. }
        | OpOf::VCmpGeI32 { .. }
        | OpOf::VCmpEqF32 { .. }
        | OpOf::VCmpGtF32 { .. }
        | OpOf::VCmpLtF32 { .. }
        | OpOf::VCmpGeF32 { .. }
        | OpOf::VCmpEqU32 { .. }
        | OpOf::VCmpGtU32 { .. }
        | OpOf::RawAsm(_) => InsnLatency {
            class: InsnClass::VALU,
            issue: 1,
            result: 1,
            recip_throughput: 1,
        },
        // Transcendentals.
        OpOf::VExpF32 { .. }
        | OpOf::VRcpF32 { .. }
        | OpOf::VRsqF32 { .. }
        | OpOf::VLog2F32 { .. }
        | OpOf::VSinF32 { .. }
        | OpOf::VCosF32 { .. } => InsnLatency {
            class: InsnClass::VTRANS,
            issue: 1,
            result: 16,
            recip_throughput: 4,
        },
        // Square root takes longer.
        OpOf::VSqrtF32 { .. } => InsnLatency {
            class: InsnClass::VTRANS,
            issue: 1,
            result: 24,
            recip_throughput: 4,
        },
        // Global loads and atomics.
        OpOf::GlobalLoad { .. }
        | OpOf::BufferLoad { .. }
        | OpOf::GlobalAtomicAddF32 { .. }
        | OpOf::GlobalAtomicAddU32Rtn { .. } => InsnLatency {
            class: InsnClass::VMEM,
            issue: 1,
            result: 490,
            recip_throughput: 1,
        },
        // Stores leave nothing to wait for.
        OpOf::GlobalStore { .. }
        | OpOf::BufferStore { .. } => InsnLatency {
            class: InsnClass::VMEM,
            issue: 1,
            result: 0,
            recip_throughput: 1,
        },
        // Local data share.
        OpOf::LdsLoad { .. }
        | OpOf::LdsStore { .. }
        | OpOf::DsLoadB32 { .. }
        | OpOf::DsLoadU16 { .. }
        | OpOf::DsLoadU16D16 { .. }
        | OpOf::DsLoadU16D16Hi { .. }
        | OpOf::DsLoadB64 { .. }
        | OpOf::DsLoadB128 { .. }
        | OpOf::DsStoreB16 { .. }
        | OpOf::DsStoreB32 { .. }
        | OpOf::DsStoreB64 { .. }
        | OpOf::DsStoreB128 { .. } => InsnLatency {
            class: InsnClass::LDS,
            issue: 1,
            result: 20,
            recip_throughput: 1,
        },
        // Lane swizzle.
        OpOf::DsSwizzle { .. } => InsnLatency {
            class: InsnClass::XLANE,
            issue: 1,
            result: 4,
            recip_throughput: 1,
        },
        // Other cross-lane moves.
        OpOf::VReadfirstlane { .. }
        | OpOf::VPermlanex16B32 { .. } => InsnLatency {
            class: InsnClass::XLANE,
            issue: 1,
            result: 2,
            recip_throughput: 1,
        },
        // Scalar arithmetic and the execution mask.
        OpOf::SAddU32 { .. }
        | OpOf::SSubU32 { .. }
        | OpOf::SAddcU32 { .. }
        | OpOf::SAndB32 { .. }
        | OpOf::SMulI32 { .. }
        | OpOf::SLshlB32 { .. }
        | OpOf::SLshrB32 { .. }
        | OpOf::SMov { .. }
        | OpOf::SCmpLtU32 { .. }
        | OpOf::SCmpEqU32 { .. }
        | OpOf::SCmpGeU32 { .. }
        | OpOf::SMovToVcc { .. }
        | OpOf::CaptureTgid { .. }
        | OpOf::ComputeGlobalIdX { .. }
        | OpOf::ClearVcc
        | OpOf::SaveExec { .. }
        | OpOf::RestoreExec { .. }
        | OpOf::XorExec { .. }
        | OpOf::ReadShaderCycles { .. } => InsnLatency {
            class: InsnClass::SALU,
            issue: 1,
            result: 1,
            recip_throughput: 1,
        },
        // Scalar memory.
        OpOf::ScalarLoad { .. }
        | OpOf::SMemLoadDword { .. } => InsnLatency {
            class: InsnClass::SMEM,
            issue: 1,
            result: 25,
            recip_throughput: 1,
        },
        // Matrix multiply-accumulate.
        OpOf::Wmma { .. } => InsnLatency {
            class: InsnClass::WMMA,
            issue: 1,
            result: 36,
            recip_throughput: 1,
        },
        // Control flow and synchronization.
        OpOf::Label(_)
        | OpOf::Branch(_)
        | OpOf::BranchScc1(_)
        | OpOf::BranchScc0(_)
        | OpOf::BranchVccz(_)
        | OpOf::Endpgm
        | OpOf::Barrier
        | OpOf::SBarrier
        | OpOf::WaitVmcnt(_)
        | OpOf::WaitLgkmcnt(_)
        | OpOf::WaitVscnt(_)
        | OpOf::BufferWbl2 { .. } => InsnLatency {
            class: InsnClass::CTRL,
            issue: 1,
            result: 0,
            recip_throughput: 1,
        },
        // Wave reductions: five swizzles and five combining steps.
        OpOf::WaveReduceAddF32 { .. }
        | OpOf::WaveReduceMaxF32 { .. }
        | OpOf::WaveReduceMinF32 { .. } => InsnLatency {
            class: InsnClass::XLANE,
            issue: 10,
            result: 20,
            recip_throughput: 10,
        },
    }
}

/// The cycles in which a block's operations are issued, one after the other.
pub open spec fn issue_cycles<S>(ops: Seq<OpOf<S>>) -> nat
    decreases ops.len(),
{
    if ops.len() == 0 {
        0
    } else {
        issue_cycles(ops.drop_last()) + insn_latency_of(ops.last()).issue as nat
    }
}

/// The cycle at which the result of the `i`-th operation can be read.
pub open spec fn ready_at<S>(ops: Seq<OpOf<S>>, i: int) -> nat {
    issue_cycles(ops.take(i + 1)) + insn_latency_of(ops[i]).result as nat
}

/// The cycle at which the last result of a block can be read.
pub open spec fn critical_path<S>(ops: Seq<OpOf<S>>) -> nat
    decreases ops.len(),
{
    if ops.len() == 0 {
        0
    } else {
        let before = critical_path(ops.drop_last());
        let last = issue_cycles(ops) + insn_latency_of(ops.last()).result as nat;
        if before > last {
            before
        } else {
            last
        }
    }
}

/// A block's issue cycles lie within its critical path, and a prefix takes no longer
/// than the whole.
proof fn lemma_prefix<S>(ops: Seq<OpOf<S>>, n: int)
    requires
        0 <= n <= ops.len(),
    ensures
        issue_cycles(ops.take(n)) <= issue_cycles(ops) <= critical_path(ops),
        critical_path(ops.take(n)) <= critical_path(ops),
        n <= issue_cycles(ops.take(n)),
    decreases ops.len(),
{
    if n == ops.len() {
        assert(ops.take(n) =~= ops);
        if n > 0 {
            lemma_prefix(ops.drop_last(), n - 1);
            assert(ops.drop_last().take(n - 1) =~= ops.drop_last());
        }
    } else {
        lemma_prefix(ops.drop_last(), n);
        assert(ops.drop_last().take(n) =~= ops.take(n));
    }
}

/// The critical path is the latest cycle at which a result can be read: no result comes
/// later, and in a block that is not empty one comes exactly then.
pub proof fn critical_path_is_latest_result<S>(ops: Seq<OpOf<S>>)
    ensures
        forall|i: int| 0 <= i < ops.len() ==> #[trigger] ready_at(ops, i) <= critical_path(ops),
        ops.len() > 0 ==> exists|i: int|
            0 <= i < ops.len() && #[trigger] ready_at(ops, i) == critical_path(ops),
    decreases ops.len(),
{
    if ops.len() > 0 {
        let init = ops.drop_last();
        critical_path_is_latest_result(init);
        assert(ops.take(ops.len() as int) =~= ops);
        assert forall|i: int| 0 <= i < init.len() implies #[trigger] ready_at(ops, i) == ready_at(
            init,
            i,
        ) by {
            assert(init.take(i + 1) =~= ops.take(i + 1));
        }
        let last = ops.len() - 1;
        assert(ready_at(ops, last) == issue_cycles(ops) + insn_latency_of(ops.last()).result);
        assert forall|i: int| 0 <= i < ops.len() implies #[trigger] ready_at(ops, i)
            <= critical_path(ops) by {
            if i < last {
                assert(ready_at(ops, i) == ready_at(init, i));
            }
        }
        if critical_path(init) > ready_at(ops, last) {
            let w = choose|i: int|
                0 <= i < init.len() && #[trigger] ready_at(init, i) == critical_path(init);
            assert(ready_at(ops, w) == critical_path(ops));
        } else {
            assert(ready_at(ops, last) == critical_path(ops));
        }
    }
}

/// The critical path lies between the issue cycles and the issue cycles plus the longest
/// result latency.
pub proof fn critical_path_bounds<S>(ops: Seq<OpOf<S>>)
    ensures
        ops.len() <= issue_cycles(ops) <= critical_path(ops) <= issue_cycles(ops) + 490,
    decreases ops.len(),
{
    lemma_prefix(ops, ops.len() as int);
    assert(ops.take(ops.len() as int) =~= ops);
    if ops.len() > 0 {
        critical_path_bounds(ops.drop_last());
    }
}

/// The critical path of a block of operations.
pub fn critical_path_cycles(ops: &[Op]) -> (r: u32)
    requires
        critical_path(ops@) <= u32::MAX,
    ensures
        r == critical_path(ops@),
{
    let mut total_issue: u32 = 0;
    let mut max_latency: u32 = 0;
    let mut i: usize = 0;
    while i < ops.len()
        invariant
            i <= ops.len(),
            total_issue == issue_cycles(ops@.take(i as int)),
            max_latency == critical_path(ops@.take(i as int)),
            critical_path(ops@) <= u32::MAX,
        decreases ops.len() - i,
    {
        let lat = op_latency(&ops[i]);
        proof {
            let next = ops@.take(i + 1);
            assert(next.drop_last() =~= ops@.take(i as int));
            assert(next.last() == ops@[i as int]);
            lemma_prefix(ops@, i + 1);
        }
        total_issue = total_issue + lat.issue;
        let ready: u32 = total_issue + lat.result;
        if ready > max_latency {
            max_latency = ready;
        }
        i = i + 1;
    }
    assert(ops@.take(i as int) =~= ops@);
    max_latency
}

/// How many vector operations fit into the latency of a global load.
pub fn valu_slots_per_vmem() -> (r: u32)
    ensures
        r == 490,
{
    490
}

/// How many vector operations fit into the latency of a matrix multiply-accumulate.
pub fn valu_slots_per_wmma() -> (r: u32)
    ensures
        r == 36,
{
    36
}

/// How many simple vector operations a matrix multiply-accumulate is worth.
pub fn wmma_valu_equivalent() -> (r: u32)
    ensures
        r == 4,
{
    4
}

/// Where an operation is counted.
#[derive(Clone, Copy, Debug, PartialEq, Eq, Structural)]
pub enum StatKind {
    Valu,
    Vtrans,
    VmemLoad,
    VmemStore,
    Lds,
    Salu,
    Wmma,
    Ctrl,
}

/// Where an operation is counted: conversions with the vector operations, moves across
/// lanes with the local data share, scalar memory with the scalar operations, and
/// atomics with the stores.
pub open spec fn stat_kind<S>(op: OpOf<S>) -> StatKind {
    match insn_latency_of(op).class {
        InsnClass::VALU | InsnClass::CVT => StatKind::Valu,
        InsnClass::VTRANS => StatKind::Vtrans,
        InsnClass::VMEM => if op is GlobalLoad || op is BufferLoad {
            StatKind::VmemLoad
        } else {
            StatKind::VmemStore
        },
        InsnClass::LDS | InsnClass::XLANE => StatKind::Lds,
        InsnClass::SALU | InsnClass::SMEM => StatKind::Salu,
        InsnClass::WMMA => StatKind::Wmma,
        InsnClass::CTRL => StatKind::Ctrl,
    }
}

/// How many operations of a block are counted in one place.
pub open spec fn stat_count<S>(ops: Seq<OpOf<S>>, k: StatKind) -> nat
    decreases ops.len(),
{
    if ops.len() == 0 {
        0
    } else {
        stat_count(ops.drop_last(), k) + if stat_kind(ops.last()) == k {
            1nat
        } else {
            0
        }
    }
}

/// Every operation of a block is counted in exactly one place.
pub proof fn stats_partition<S>(ops: Seq<OpOf<S>>)
    ensures
        stat_count(ops, StatKind::Valu) + stat_count(ops, StatKind::Vtrans) + stat_count(
            ops,
            StatKind::VmemLoad,
        ) + stat_count(ops, StatKind::VmemStore) + stat_count(ops, StatKind::Lds) + stat_count(
            ops,
            StatKind::Salu,
        ) + stat_count(ops, StatKind::Wmma) + stat_count(ops, StatKind::Ctrl) == ops.len(),
    decreases ops.len(),
{
    if ops.len() > 0 {
        stats_partition(ops.drop_last());
    }
}

/// Summary of a block of operations.
#[derive(Clone, Copy, Debug)]
pub struct BlockStats {
    pub valu_count: u32,
    pub vtrans_count: u32,
    pub vmem_load_count: u32,
    pub vmem_store_count: u32,
    pub lds_count: u32,
    pub salu_count: u32,
    pub wmma_count: u32,
    pub ctrl_count: u32,
    pub total_issue_cycles: u32,
    pub estimated_critical_path: u32,
}

impl Default for BlockStats {
    fn default() -> (r: Self)
        ensures
            r.counts(Seq::<Op>::empty()),
            r.estimated_critical_path == 0,
    {
        BlockStats {
            valu_count: 0,
            vtrans_count: 0,
            vmem_load_count: 0,
            vmem_store_count: 0,
            lds_count: 0,
            salu_count: 0,
            wmma_count: 0,
            ctrl_count: 0,
            total_issue_cycles: 0,
            estimated_critical_path: 0,
        }
    }
}

impl BlockStats {
    /// Whether the counts and the issue cycles are those of a block.
    pub open spec fn counts(self, ops: Seq<Op>) -> bool {
        &&& self.valu_count == stat_count(ops, StatKind::Valu)
        &&& self.vtrans_count == stat_count(ops, StatKind::Vtrans)
        &&& self.vmem_load_count == stat_count(ops, StatKind::VmemLoad)
        &&& self.vmem_store_count == stat_count(ops, StatKind::VmemStore)
        &&& self.lds_count == stat_count(ops, StatKind::Lds)
        &&& self.salu_count == stat_count(ops, StatKind::Salu)
        &&& self.wmma_count == stat_count(ops, StatKind::Wmma)
        &&& self.ctrl_count == stat_count(ops, StatKind::Ctrl)
        &&& self.total_issue_cycles == issue_cycles(ops)
    }
}

/// Summarizes a block of operations.
pub fn analyze_block(ops: &[Op]) -> (r: BlockStats)
    requires
        critical_path(ops@) <= u32::MAX,
    ensures
        r.counts(ops@),
        r.estimated_critical_path == critical_path(ops@),
{
    let mut stats = BlockStats::default();
    let mut i: usize = 0;
    assert(ops@.take(0) =~= Seq::empty());
    while i < ops.len()
        invariant
            i <= ops.len(),
            stats.counts(ops@.take(i as int)),
            critical_path(ops@) <= u32::MAX,
        decreases ops.len() - i,
    {
        let lat = op_latency(&ops[i]);
        proof {
            let next = ops@.take(i + 1);
            assert(next.drop_last() =~= ops@.take(i as int));
            assert(next.last() == ops@[i as int]);
            lemma_prefix(ops@, i + 1);
            stats_partition(ops@.take(i as int));
        }
        stats.total_issue_cycles = stats.total_issue_cycles + lat.issue;
        match lat.class {
            InsnClass::VALU | InsnClass::CVT => {
                stats.valu_count = stats.valu_count + 1;
            },
            InsnClass::VTRANS => {
                stats.vtrans_count = stats.vtrans_count + 1;
            },
            InsnClass::VMEM => {
                if matches!(&ops[i], OpOf::GlobalLoad { .. } | OpOf::BufferLoad { .. }) {
                    stats.vmem_load_count = stats.vmem_load_count + 1;
                } else {
                    stats.vmem_store_count = stats.vmem_store_count + 1;
                }
            },
            InsnClass::LDS | InsnClass::XLANE => {
                stats.lds_count = stats.lds_count + 1;
            },
            InsnClass::SALU | InsnClass::SMEM => {
                stats.salu_count = stats.salu_count + 1;
            },
            InsnClass::WMMA => {
                stats.wmma_count = stats.wmma_count + 1;
            },
            InsnClass::CTRL => {
                stats.ctrl_count = stats.ctrl_count + 1;
            },
        }
        i = i + 1;
    }
    assert(ops@.take(i as int) =~= ops@);
    stats.estimated_critical_path = critical_path_cycles(ops);
    stats
}

/// The latencies of a loop body that have to be hidden, and the cycles that can hide
/// them.
#[derive(Clone, Copy, Debug, PartialEq, Eq, Structural)]
pub struct IlpTerms {
    /// Cycles of matrix results to wait for.
    pub wmma_latency: u32,
    /// Cycles of global loads to wait for.
    pub vmem_latency: u32,
    /// Vector cycles that can hide the matrix results.
    pub wmma_filler: u32,
    /// Matrix and vector cycles that can hide the global loads.
    pub vmem_filler: u32,
}

/// The latencies to hide in a block and what can hide them; stores leave nothing to
/// wait for.
pub fn ilp_terms(stats: &BlockStats) -> (r: IlpTerms)
    requires
        stats.vmem_load_count * 490 <= u32::MAX,
        stats.wmma_count * 36 + stats.valu_count + stats.vtrans_count * 4 <= u32::MAX,
    ensures
        r.wmma_latency == stats.wmma_count * 36,
        r.vmem_latency == stats.vmem_load_count * 490,
        r.wmma_filler == stats.valu_count + stats.vtrans_count * 4,
        r.vmem_filler == r.wmma_latency + r.wmma_filler,
{
    let wmma_latency: u32 = stats.wmma_count * 36;
    let vmem_latency: u32 = stats.vmem_load_count * 490;
    let available: u32 = stats.valu_count + stats.vtrans_count * 4;
    IlpTerms {
        wmma_latency,
        vmem_latency,
        wmma_filler: available,
        vmem_filler: wmma_latency + available,
    }
}

} // verus!
