//! Which registers operations read and write, told by what the operations do.
//!
//! An operation leaves every register alone that it does not define, and what it puts in those
//! that it defines follows from the registers that it uses. So it is with the condition codes,
//! with what is loaded from memory, and with what is stored there.
use vstd::prelude::*;

use crate::compile::{T0Kernel, arg_load_ops, arg_size, arg_sregs};
use crate::ir::{
    KernArgText, OpOf, OpText, Operand, SOFFSET_ZERO, SOperand, SReg, VReg, Width, WmmaFormat,
    op_has_side_effects, op_reads_scc, op_reads_vcc, op_sreg_defs, op_sreg_uses, op_vreg_defs,
    op_vreg_uses, op_writes_scc, op_writes_vcc, operand_vregs, soffset_sregs, soperand_sregs,
    sregs, vregs,
};
use crate::lanes::Floats;
use crate::waves::{Wave, wave_step};

verus! {

/// Whether an operation works on registers alone: on vectors.
pub open spec fn on_vectors(op: OpText) -> bool {
    op is VMov || op is VMovFromSgpr || op is VAddF32 || op is VSubF32 || op is VMulF32
        || op is VMaxF32 || op is VMinF32 || op is VMinU32 || op is VAddU32 || op is VSubU32
        || op is VAndB32 || op is VOrB32 || op is VXorB32 || op is VFmaF32 || op is VMulLoU32
        || op is VLshlrevB32 || op is VLshrrevB32 || op is VLshrrevB32Vgpr || op is VAndOrB32
        || op is CvtPkBf16F32 || op is VCvtF32U32 || op is VCvtU32F32 || op is VRsqF32
        || op is VExpF32 || op is VSinF32 || op is VCosF32 || op is VRcpF32 || op is VSqrtF32
        || op is VLog2F32 || op is VReadfirstlane || op is VPermlanex16B32 || op is DsSwizzle
        || op is VAddCo || op is VAddCoCi || op is VAddCOU32 || op is VAddCCU32
        || op is VCndmaskB32 || op is WaveReduceAddF32 || op is WaveReduceMaxF32
        || op is WaveReduceMinF32
}

/// Whether an operation works on registers alone: comparisons and scalar operations.
pub open spec fn on_scalars(op: OpText) -> bool {
    op is VCmpLtU32 || op is VCmpGeU32 || op is VCmpGtU32 || op is VCmpEqU32 || op is VCmpEqF32
        || op is VCmpGtF32 || op is VCmpLtF32 || op is VCmpGeF32 || op is VCmpGtF32Imm0
        || op is VCmpGtU32Imm || op is VCmpEqU32Imm || op is VCmpGeI32 || op is SMov
        || op is SAddU32 || op is SAddcU32 || op is SSubU32 || op is SAndB32 || op is SMulI32
        || op is SLshlB32 || op is SLshrB32 || op is SCmpLtU32 || op is SCmpGeU32
        || op is SCmpEqU32 || op is ClearVcc
}

/// Whether two waves are alike in what an operation reads.
pub open spec fn alike(op: OpText, w: Wave, u: Wave) -> bool {
    &&& forall|r: VReg, lane: u32|
        op_vreg_uses(op).contains(r) ==> #[trigger] (w.v)(r.0, lane) == (u.v)(r.0, lane)
    &&& forall|r: SReg| op_sreg_uses(op).contains(r) ==> #[trigger] (w.s)(r.0) == (u.s)(r.0)
    &&& op_reads_vcc(op) ==> forall|lane: u32| #[trigger] (w.vcc)(lane) == (u.vcc)(lane)
    &&& op_reads_scc(op) ==> w.scc == u.scc
}

/// Whether a wave is what another was, but for what an operation writes.
pub open spec fn unchanged(op: OpText, w: Wave, b: Wave) -> bool {
    &&& forall|r: u32, lane: u32|
        !op_vreg_defs(op).contains(VReg(r)) ==> #[trigger] (b.v)(r, lane) == (w.v)(r, lane)
    &&& forall|r: u32|
        !op_sreg_defs(op).contains(SReg(r)) ==> #[trigger] (b.s)(r) == (w.s)(r)
    &&& !op_writes_vcc(op) ==> forall|lane: u32| #[trigger] (b.vcc)(lane) == (w.vcc)(lane)
    &&& !op_writes_scc(op) ==> b.scc == w.scc
}

/// Whether two waves are alike in what an operation writes.
pub open spec fn same_results(op: OpText, a: Wave, b: Wave) -> bool {
    &&& forall|r: VReg, lane: u32|
        op_vreg_defs(op).contains(r) ==> #[trigger] (a.v)(r.0, lane) == (b.v)(r.0, lane)
    &&& forall|r: SReg| op_sreg_defs(op).contains(r) ==> #[trigger] (a.s)(r.0) == (b.s)(r.0)
    &&& op_writes_vcc(op) ==> forall|lane: u32| #[trigger] (a.vcc)(lane) == (b.vcc)(lane)
    &&& op_writes_scc(op) ==> a.scc == b.scc
}

/// An operation on registers changes only what it defines.
#[verifier::spinoff_prover]
#[verifier::rlimit(60)]
pub proof fn operations_change_what_they_define(op: OpText, fl: Floats, w: Wave)
    requires
        on_vectors(op) || on_scalars(op),
    ensures
        unchanged(op, w, wave_step(op, fl, w)),
{
    let b = wave_step(op, fl, w);
    assert forall|r: u32, lane: u32| !op_vreg_defs(op).contains(VReg(r)) implies #[trigger] (b.v)(
        r,
        lane,
    ) == (w.v)(r, lane) by {
        match op {
            OpOf::WaveReduceAddF32 { val, tmp }
            | OpOf::WaveReduceMaxF32 { val, tmp }
            | OpOf::WaveReduceMinF32 { val, tmp } => {
                assert((seq![val] + seq![tmp])[0] == val);
                assert((seq![val] + seq![tmp])[1] == tmp);
            },
            _ => {
                if op_vreg_defs(op).len() == 1 {
                    assert(op_vreg_defs(op).contains(op_vreg_defs(op)[0]));
                }
            },
        }
    }
    assert forall|r: u32| !op_sreg_defs(op).contains(SReg(r)) implies #[trigger] (b.s)(r) == (w.s)(
        r,
    ) by {
        if op_sreg_defs(op).len() == 1 {
            assert(op_sreg_defs(op).contains(op_sreg_defs(op)[0]));
        }
    }
}

/// A register that is used holds the same in waves that are alike.
proof fn lemma_used(op: OpText, w: Wave, u: Wave, i: int, r: VReg)
    requires
        alike(op, w, u),
        0 <= i < op_vreg_uses(op).len(),
        op_vreg_uses(op)[i] == r,
    ensures
        forall|lane: u32| #[trigger] (w.v)(r.0, lane) == (u.v)(r.0, lane),
{
    assert(op_vreg_uses(op).contains(op_vreg_uses(op)[i]));
}

proof fn lemma_used_scalar(op: OpText, w: Wave, u: Wave, i: int)
    requires
        alike(op, w, u),
        0 <= i < op_sreg_uses(op).len(),
    ensures
        (w.s)(op_sreg_uses(op)[i].0) == (u.s)(op_sreg_uses(op)[i].0),
{
    assert(op_sreg_uses(op).contains(op_sreg_uses(op)[i]));
}

/// An operand that is used is the same in waves that are alike.
proof fn lemma_used_operand(
    op: OpText,
    w: Wave,
    u: Wave,
    before: Seq<VReg>,
    o: Operand,
    behind: Seq<VReg>,
)
    requires
        alike(op, w, u),
        op_vreg_uses(op) == before + operand_vregs(o) + behind,
    ensures
        forall|lane: u32| #[trigger] w.operand(o, lane) == u.operand(o, lane),
{
    match o {
        Operand::VReg(r) => {
            lemma_used(op, w, u, before.len() as int, r);
        },
        _ => {},
    }
}

proof fn lemma_used_scalars(op: OpText, w: Wave, u: Wave, first: SReg, o: SOperand)
    requires
        alike(op, w, u),
        op_sreg_uses(op) == seq![first] + soperand_sregs(o),
    ensures
        (w.s)(first.0) == (u.s)(first.0),
        w.scalar(o) == u.scalar(o),
{
    lemma_used_scalar(op, w, u, 0);
    if o is SReg {
        lemma_used_scalar(op, w, u, 1);
    }
}

/// What an operation on vectors puts in the registers that it defines follows from those that
/// it uses, and from the condition codes that it reads.
#[verifier::spinoff_prover]
#[verifier::rlimit(80)]
pub proof fn vector_results_follow_from_uses(op: OpText, fl: Floats, w: Wave, u: Wave)
    requires
        on_vectors(op),
        alike(op, w, u),
    ensures
        same_results(op, wave_step(op, fl, w), wave_step(op, fl, u)),
{
    let (a, b) = (wave_step(op, fl, w), wave_step(op, fl, u));
    let uses = op_vreg_uses(op);
    let none = Seq::<VReg>::empty();
    match op {
        OpOf::VAddF32 { src0, src1, .. }
        | OpOf::VSubF32 { src0, src1, .. }
        | OpOf::VMulF32 { src0, src1, .. }
        | OpOf::VMaxF32 { src0, src1, .. }
        | OpOf::VMinF32 { src0, src1, .. }
        | OpOf::VMinU32 { src0, src1, .. }
        | OpOf::VAddU32 { src0, src1, .. }
        | OpOf::VSubU32 { src0, src1, .. }
        | OpOf::VAndB32 { src0, src1, .. }
        | OpOf::VOrB32 { src0, src1, .. }
        | OpOf::VXorB32 { src0, src1, .. } => {
            let (x, y) = (operand_vregs(src0), operand_vregs(src1));
            assert(uses =~= none + x + y);
            assert(uses =~= x + y + none);
            lemma_used_operand(op, w, u, none, src0, y);
            lemma_used_operand(op, w, u, x, src1, none);
            assert forall|r: VReg, lane: u32| op_vreg_defs(op).contains(r) implies #[trigger] (a.v)(
                r.0,
                lane,
            ) == (b.v)(r.0, lane) by {
                assert(w.operand(src0, lane) == u.operand(src0, lane));
                assert(w.operand(src1, lane) == u.operand(src1, lane));
            }
        },
        OpOf::VFmaF32 { src0, src1, src2, .. } => {
            let (x, y, z) = (operand_vregs(src0), operand_vregs(src1), operand_vregs(src2));
            assert(uses =~= none + x + (y + z));
            assert(uses =~= (x + y) + z + none);
            lemma_used_operand(op, w, u, none, src0, y + z);
            lemma_used_operand(op, w, u, x, src1, z);
            lemma_used_operand(op, w, u, x + y, src2, none);
        },
        OpOf::VCndmaskB32 { src_false, src_true, .. } => {
            let (x, y) = (operand_vregs(src_false), operand_vregs(src_true));
            assert(uses =~= none + x + y);
            assert(uses =~= x + y + none);
            lemma_used_operand(op, w, u, none, src_false, y);
            lemma_used_operand(op, w, u, x, src_true, none);
        },
        OpOf::VMov { src, .. } => {
            assert(uses =~= none + operand_vregs(src) + none);
            lemma_used_operand(op, w, u, none, src, none);
        },
        OpOf::VMovFromSgpr { .. } => {
            lemma_used_scalar(op, w, u, 0);
        },
        OpOf::VMulLoU32 { src0, src1, .. }
        | OpOf::CvtPkBf16F32 { src0, src1, .. }
        | OpOf::VAddCo { src0, src1, .. }
        | OpOf::VAddCOU32 { src0, src1, .. } => {
            lemma_used(op, w, u, 0, src0);
            lemma_used(op, w, u, 1, src1);
        },
        OpOf::VLshrrevB32Vgpr { shift, src, .. } => {
            lemma_used(op, w, u, 0, shift);
            lemma_used(op, w, u, 1, src);
        },
        OpOf::VAndOrB32 { src0, src2, .. } => {
            lemma_used(op, w, u, 0, src0);
            lemma_used(op, w, u, 1, src2);
        },
        OpOf::VLshlrevB32 { src, .. }
        | OpOf::VLshrrevB32 { src, .. }
        | OpOf::VReadfirstlane { src, .. }
        | OpOf::VCvtF32U32 { src, .. }
        | OpOf::VCvtU32F32 { src, .. }
        | OpOf::VPermlanex16B32 { src, .. }
        | OpOf::VRsqF32 { src, .. }
        | OpOf::VExpF32 { src, .. }
        | OpOf::VSinF32 { src, .. }
        | OpOf::VCosF32 { src, .. }
        | OpOf::VRcpF32 { src, .. }
        | OpOf::VSqrtF32 { src, .. }
        | OpOf::VLog2F32 { src, .. }
        | OpOf::VAddCoCi { src, .. }
        | OpOf::VAddCCU32 { src, .. }
        | OpOf::DsSwizzle { src, .. } => {
            lemma_used(op, w, u, 0, src);
        },
        OpOf::WaveReduceAddF32 { val, tmp }
        | OpOf::WaveReduceMaxF32 { val, tmp }
        | OpOf::WaveReduceMinF32 { val, tmp } => {
            lemma_used(op, w, u, 0, val);
            assert(w.all(val) =~= u.all(val));
        },
        _ => {},
    }
}

/// What a comparison or a scalar operation puts in the registers that it defines, and in the
/// condition codes that it writes, follows from the registers that it uses and the codes that it
/// reads.
#[verifier::spinoff_prover]
#[verifier::rlimit(80)]
pub proof fn scalar_results_follow_from_uses(op: OpText, fl: Floats, w: Wave, u: Wave)
    requires
        on_scalars(op),
        alike(op, w, u),
    ensures
        same_results(op, wave_step(op, fl, w), wave_step(op, fl, u)),
{
    let (a, b) = (wave_step(op, fl, w), wave_step(op, fl, u));
    let uses = op_vreg_uses(op);
    let none = Seq::<VReg>::empty();
    match op {
        OpOf::VCmpLtU32 { src0, src1 }
        | OpOf::VCmpGeU32 { src0, src1 }
        | OpOf::VCmpGtU32 { src0, src1 }
        | OpOf::VCmpEqU32 { src0, src1 }
        | OpOf::VCmpEqF32 { src0, src1 }
        | OpOf::VCmpGtF32 { src0, src1 }
        | OpOf::VCmpLtF32 { src0, src1 }
        | OpOf::VCmpGeF32 { src0, src1 } => {
            let (x, y) = (operand_vregs(src0), operand_vregs(src1));
            assert(uses =~= none + x + y);
            assert(uses =~= x + y + none);
            lemma_used_operand(op, w, u, none, src0, y);
            lemma_used_operand(op, w, u, x, src1, none);
            assert forall|lane: u32| #[trigger] (a.vcc)(lane) == (b.vcc)(lane) by {
                assert(w.operand(src0, lane) == u.operand(src0, lane));
                assert(w.operand(src1, lane) == u.operand(src1, lane));
            }
        },
        OpOf::VCmpGtF32Imm0 { src }
        | OpOf::VCmpGtU32Imm { src, .. }
        | OpOf::VCmpEqU32Imm { src, .. } => {
            lemma_used(op, w, u, 0, src);
        },
        OpOf::VCmpGeI32 { src0, src1 } => {
            lemma_used(op, w, u, 0, src0);
            lemma_used(op, w, u, 1, src1);
        },
        OpOf::SMov { src, .. } => {
            if src is SReg {
                lemma_used_scalar(op, w, u, 0);
            }
        },
        OpOf::SAddU32 { src0, src1, .. }
        | OpOf::SAddcU32 { src0, src1, .. }
        | OpOf::SSubU32 { src0, src1, .. }
        | OpOf::SAndB32 { src0, src1, .. }
        | OpOf::SCmpEqU32 { src0, src1 } => {
            lemma_used_scalars(op, w, u, src0, src1);
        },
        OpOf::SMulI32 { .. } | OpOf::SCmpLtU32 { .. } | OpOf::SCmpGeU32 { .. } => {
            lemma_used_scalar(op, w, u, 0);
            lemma_used_scalar(op, w, u, 1);
        },
        OpOf::SLshlB32 { .. } | OpOf::SLshrB32 { .. } => {
            lemma_used_scalar(op, w, u, 0);
        },
        _ => {},
    }
}

// ── Memory ──
/// What comes back from memory and from the matrix unit.
pub struct Memory {
    /// Words and halves of global memory, by byte.
    pub words: spec_fn(int) -> u32,
    pub halves: spec_fn(int) -> u16,
    /// Words and halves of buffers, by what describes the buffer and byte.
    pub buffer_words: spec_fn(Seq<u32>, int) -> u32,
    pub buffer_halves: spec_fn(Seq<u32>, int) -> u16,
    /// Words and halves of the local data share, by byte.
    pub shared_words: spec_fn(int) -> u32,
    pub shared_halves: spec_fn(int) -> u16,
    /// A word of a product, by the words of three matrices in all lanes, register and lane.
    pub product: spec_fn(WmmaFormat, Seq<Seq<u32>>, Seq<Seq<u32>>, Seq<Seq<u32>>, int, u32) -> u32,
}

/// How far a register is behind another.
pub open spec fn past(q: u32, r: u32) -> int {
    if q >= r {
        q - r
    } else {
        q - r + 0x1_0000_0000
    }
}

/// Whether a register is one of a group.
proof fn lemma_group(r: u32, n: nat, q: u32)
    requires
        n <= 8,
    ensures
        vregs(VReg(r), n).contains(VReg(q)) <==> past(q, r) < n,
        sregs(SReg(r), n).contains(SReg(q)) <==> past(q, r) < n,
{
    let i = past(q, r);
    if i < n {
        assert(vregs(VReg(r), n)[i] == VReg(q));
        assert(sregs(SReg(r), n)[i] == SReg(q));
    }
}

impl Wave {
    /// With `n` vector registers from `r` on.
    pub open spec fn with_vs(self, r: VReg, n: nat, word: spec_fn(int, u32) -> u32) -> Wave {
        Wave {
            v: |q: u32, lane: u32|
                if past(q, r.0) < n {
                    word(past(q, r.0), lane)
                } else {
                    (self.v)(q, lane)
                },
            ..self
        }
    }

    /// With `n` scalar registers from `r` on.
    pub open spec fn with_ss(self, r: SReg, n: nat, word: spec_fn(int) -> u32) -> Wave {
        Wave {
            s: |q: u32|
                if past(q, r.0) < n {
                    word(past(q, r.0))
                } else {
                    (self.s)(q)
                },
            ..self
        }
    }

    /// The words of `n` vector registers from `r` on.
    pub open spec fn group(self, r: VReg, n: nat, lane: u32) -> Seq<u32> {
        Seq::new(n, |i: int| (self.v)(vregs(r, n)[i].0, lane))
    }

    /// The words of `n` scalar registers from `r` on.
    pub open spec fn scalars(self, r: SReg, n: nat) -> Seq<u32> {
        Seq::new(n, |i: int| (self.s)(sregs(r, n)[i].0))
    }

    /// The words of eight vector registers in all lanes.
    pub open spec fn matrix(self, r: VReg) -> Seq<Seq<u32>> {
        Seq::new(32, |lane: int| self.group(r, 8, lane as u32))
    }

    /// A scalar offset.
    pub open spec fn scalar_offset(self, r: SReg) -> int {
        if r.0 == SOFFSET_ZERO {
            0
        } else {
            (self.s)(r.0) as int
        }
    }
}

/// The number in two words, the lower first.
pub open spec fn long(words: Seq<u32>) -> int {
    words[0] + 0x1_0000_0000 * words[1]
}

/// Whether an operation fills registers from memory or from the matrix unit.
pub open spec fn fetches(op: OpText) -> bool {
    op is GlobalLoad || op is BufferLoad || op is LdsLoad || op is DsLoadB32 || op is DsLoadB64
        || op is DsLoadB128 || op is DsLoadU16 || op is DsLoadU16D16 || op is DsLoadU16D16Hi
        || op is ScalarLoad || op is SMemLoadDword || op is Wmma || op is GlobalAtomicAddU32Rtn
}

/// Words from the local data share.
pub open spec fn from_share(
    w: Wave,
    m: Memory,
    dst: VReg,
    n: nat,
    addr: VReg,
    offset: u16,
) -> Wave {
    w.with_vs(
        dst,
        n,
        |i: int, lane: u32| (m.shared_words)((w.v)(addr.0, lane) + offset + 4 * i),
    )
}

/// A half from the local data share.
pub open spec fn half_at(w: Wave, m: Memory, addr: VReg, offset: u16, lane: u32) -> u16 {
    (m.shared_halves)((w.v)(addr.0, lane) + offset)
}

/// A wave behind an operation that fills registers.
pub open spec fn fetch_step(op: OpText, m: Memory, w: Wave) -> Wave {
    match op {
        OpOf::GlobalLoad { dst, addr, width, offset } => w.with_vs(
            dst,
            width.regs(),
            |i: int, lane: u32|
                {
                    let at = long(w.group(addr, 2, lane)) + offset;
                    if width == Width::B16 {
                        (m.halves)(at) as u32
                    } else {
                        (m.words)(at + 4 * i)
                    }
                },
        ),
        OpOf::BufferLoad { dst, voffset, srsrc, width, offset, soffset } => w.with_vs(
            dst,
            width.regs(),
            |i: int, lane: u32|
                {
                    let at = (w.v)(voffset.0, lane) + w.scalar_offset(soffset) + offset;
                    if width == Width::B16 {
                        (m.buffer_halves)(w.scalars(srsrc, 4), at) as u32
                    } else {
                        (m.buffer_words)(w.scalars(srsrc, 4), at + 4 * i)
                    }
                },
        ),
        OpOf::LdsLoad { dst, addr, width, offset } => if width == Width::B16 {
            w.with_v(dst, |lane: u32| half_at(w, m, addr, offset, lane) as u32)
        } else {
            from_share(w, m, dst, width.regs(), addr, offset)
        },
        OpOf::DsLoadB32 { dst, vaddr, offset } => from_share(w, m, dst, 1, vaddr, offset),
        OpOf::DsLoadB64 { dst, vaddr, offset } => from_share(w, m, dst, 2, vaddr, offset),
        OpOf::DsLoadB128 { dst, vaddr, offset } => from_share(w, m, dst, 4, vaddr, offset),
        OpOf::DsLoadU16 { dst, vaddr, offset } => w.with_v(
            dst,
            |lane: u32| half_at(w, m, vaddr, offset, lane) as u32,
        ),
        OpOf::DsLoadU16D16 { dst, vaddr, offset } => w.with_v(
            dst,
            |lane: u32|
                ((w.v)(dst.0, lane) / 0x1_0000 * 0x1_0000 + half_at(
                    w,
                    m,
                    vaddr,
                    offset,
                    lane,
                )) as u32,
        ),
        OpOf::DsLoadU16D16Hi { dst, vaddr, offset } => w.with_v(
            dst,
            |lane: u32|
                ((w.v)(dst.0, lane) % 0x1_0000 + 0x1_0000 * half_at(
                    w,
                    m,
                    vaddr,
                    offset,
                    lane,
                )) as u32,
        ),
        OpOf::ScalarLoad { dst, base, offset, width } => w.with_ss(
            dst,
            width.regs(),
            |i: int| (m.words)(long(w.scalars(SReg(base.0), 2)) + offset + 4 * i),
        ),
        OpOf::SMemLoadDword { dst, base_lo, base_hi, offset } => w.with_s(
            dst,
            (m.words)((w.s)(base_lo.0) + 0x1_0000_0000 * (w.s)(base_hi.0) + offset),
        ),
        OpOf::GlobalAtomicAddU32Rtn { dst, addr, src } => w.with_v(
            dst,
            |lane: u32| (m.words)(long(w.group(addr, 2, lane))),
        ),
        OpOf::Wmma { dst, a, b, c, format } => w.with_vs(
            dst,
            8,
            |i: int, lane: u32| (m.product)(format, w.matrix(a), w.matrix(b), w.matrix(c), i, lane),
        ),
        _ => arbitrary(),
    }
}

proof fn lemma_used_group(
    op: OpText,
    w: Wave,
    u: Wave,
    before: Seq<VReg>,
    r: VReg,
    n: nat,
    behind: Seq<VReg>,
)
    requires
        alike(op, w, u),
        op_vreg_uses(op) == before + vregs(r, n) + behind,
    ensures
        forall|lane: u32| #[trigger] w.group(r, n, lane) == u.group(r, n, lane),
{
    assert forall|lane: u32| #[trigger] w.group(r, n, lane) == u.group(r, n, lane) by {
        assert forall|i: int| 0 <= i < n implies w.group(r, n, lane)[i] == u.group(
            r,
            n,
            lane,
        )[i] by {
            lemma_used(op, w, u, before.len() + i, vregs(r, n)[i]);
            assert((w.v)(vregs(r, n)[i].0, lane) == (u.v)(vregs(r, n)[i].0, lane));
        }
        assert(w.group(r, n, lane) =~= u.group(r, n, lane));
    }
}

proof fn lemma_used_scalar_group(
    op: OpText,
    w: Wave,
    u: Wave,
    r: SReg,
    n: nat,
    behind: Seq<SReg>,
)
    requires
        alike(op, w, u),
        op_sreg_uses(op) == sregs(r, n) + behind,
    ensures
        w.scalars(r, n) == u.scalars(r, n),
{
    assert forall|i: int| 0 <= i < n implies w.scalars(r, n)[i] == u.scalars(r, n)[i] by {
        lemma_used_scalar(op, w, u, i);
        assert(op_sreg_uses(op)[i] == sregs(r, n)[i]);
    }
    assert(w.scalars(r, n) =~= u.scalars(r, n));
}

/// An operation that fills registers changes only what it defines.
#[verifier::spinoff_prover]
#[verifier::rlimit(60)]
pub proof fn fetches_change_what_they_define(op: OpText, m: Memory, w: Wave)
    requires
        fetches(op),
    ensures
        unchanged(op, w, fetch_step(op, m, w)),
{
    let b = fetch_step(op, m, w);
    assert forall|r: u32, lane: u32| !op_vreg_defs(op).contains(VReg(r)) implies #[trigger] (b.v)(
        r,
        lane,
    ) == (w.v)(r, lane) by {
        match op {
            OpOf::GlobalLoad { dst, width, .. }
            | OpOf::BufferLoad { dst, width, .. }
            | OpOf::LdsLoad { dst, width, .. } => {
                lemma_group(dst.0, width.regs(), r);
            },
            OpOf::DsLoadB64 { dst, .. } => {
                lemma_group(dst.0, 2, r);
            },
            OpOf::DsLoadB128 { dst, .. } => {
                lemma_group(dst.0, 4, r);
            },
            OpOf::Wmma { dst, .. } => {
                lemma_group(dst.0, 8, r);
            },
            _ => {
                if op_vreg_defs(op).len() == 1 {
                    assert(op_vreg_defs(op).contains(op_vreg_defs(op)[0]));
                }
            },
        }
    }
    assert forall|r: u32| !op_sreg_defs(op).contains(SReg(r)) implies #[trigger] (b.s)(r) == (w.s)(
        r,
    ) by {
        match op {
            OpOf::ScalarLoad { dst, width, .. } => {
                lemma_group(dst.0, width.regs(), r);
            },
            _ => {
                if op_sreg_defs(op).len() == 1 {
                    assert(op_sreg_defs(op).contains(op_sreg_defs(op)[0]));
                }
            },
        }
    }
}

/// What an operation fills registers with follows from memory and from the registers that it
/// uses.
#[verifier::spinoff_prover]
#[verifier::rlimit(80)]
pub proof fn fetches_follow_from_uses(op: OpText, m: Memory, w: Wave, u: Wave)
    requires
        fetches(op),
        alike(op, w, u),
    ensures
        same_results(op, fetch_step(op, m, w), fetch_step(op, m, u)),
{
    let (a, b) = (fetch_step(op, m, w), fetch_step(op, m, u));
    let uses = op_vreg_uses(op);
    let none = Seq::<VReg>::empty();
    lemma_fetch_operands(op, w, u);
    assert forall|r: VReg, lane: u32| op_vreg_defs(op).contains(r) implies #[trigger] (a.v)(
        r.0,
        lane,
    ) == (b.v)(r.0, lane) by {
        match op {
            OpOf::GlobalLoad { dst, addr, width, .. } => {
                lemma_group(dst.0, width.regs(), r.0);
                assert(w.group(addr, 2, lane) == u.group(addr, 2, lane));
            },
            OpOf::BufferLoad { dst, voffset, width, .. } => {
                lemma_group(dst.0, width.regs(), r.0);
                assert((w.v)(voffset.0, lane) == (u.v)(voffset.0, lane));
            },
            OpOf::LdsLoad { dst, addr, width, .. } => {
                lemma_group(dst.0, width.regs(), r.0);
                lemma_group(dst.0, 1, r.0);
                assert((w.v)(addr.0, lane) == (u.v)(addr.0, lane));
            },
            OpOf::DsLoadB64 { dst, vaddr, .. } => {
                lemma_group(dst.0, 2, r.0);
                assert((w.v)(vaddr.0, lane) == (u.v)(vaddr.0, lane));
            },
            OpOf::DsLoadB128 { dst, vaddr, .. } => {
                lemma_group(dst.0, 4, r.0);
                assert((w.v)(vaddr.0, lane) == (u.v)(vaddr.0, lane));
            },
            OpOf::DsLoadB32 { dst, vaddr, .. } | OpOf::DsLoadU16 { dst, vaddr, .. } => {
                assert((w.v)(vaddr.0, lane) == (u.v)(vaddr.0, lane));
            },
            OpOf::DsLoadU16D16 { dst, vaddr, .. } | OpOf::DsLoadU16D16Hi { dst, vaddr, .. } => {
                assert((w.v)(vaddr.0, lane) == (u.v)(vaddr.0, lane));
                assert((w.v)(dst.0, lane) == (u.v)(dst.0, lane));
            },
            OpOf::GlobalAtomicAddU32Rtn { dst, addr, .. } => {
                assert(w.group(addr, 2, lane) == u.group(addr, 2, lane));
            },
            OpOf::Wmma { dst, .. } => {
                lemma_group(dst.0, 8, r.0);
            },
            _ => {},
        }
    }
    assert forall|r: SReg| op_sreg_defs(op).contains(r) implies #[trigger] (a.s)(r.0) == (b.s)(
        r.0,
    ) by {
        match op {
            OpOf::ScalarLoad { dst, width, .. } => {
                lemma_group(dst.0, width.regs(), r.0);
            },
            _ => {},
        }
    }
}

/// What an operation that fills registers reads is the same in waves that are alike.
#[verifier::spinoff_prover]
#[verifier::rlimit(60)]
proof fn lemma_fetch_operands(op: OpText, w: Wave, u: Wave)
    requires
        fetches(op),
        alike(op, w, u),
    ensures
        op matches OpOf::GlobalLoad { addr, .. } ==> forall|lane: u32| #[trigger]
            w.group(addr, 2, lane) == u.group(addr, 2, lane),
        op matches OpOf::GlobalAtomicAddU32Rtn { addr, .. } ==> forall|lane: u32| #[trigger]
            w.group(addr, 2, lane) == u.group(addr, 2, lane),
        op matches OpOf::BufferLoad { voffset, srsrc, soffset, .. } ==> {
            &&& forall|lane: u32| #[trigger] (w.v)(voffset.0, lane) == (u.v)(voffset.0, lane)
            &&& w.scalars(srsrc, 4) == u.scalars(srsrc, 4)
            &&& w.scalar_offset(soffset) == u.scalar_offset(soffset)
        },
        op matches OpOf::LdsLoad { addr, .. } ==> forall|lane: u32| #[trigger]
            (w.v)(addr.0, lane) == (u.v)(addr.0, lane),
        op matches OpOf::DsLoadB32 { vaddr, .. } ==> forall|lane: u32| #[trigger]
            (w.v)(vaddr.0, lane) == (u.v)(vaddr.0, lane),
        op matches OpOf::DsLoadB64 { vaddr, .. } ==> forall|lane: u32| #[trigger]
            (w.v)(vaddr.0, lane) == (u.v)(vaddr.0, lane),
        op matches OpOf::DsLoadB128 { vaddr, .. } ==> forall|lane: u32| #[trigger]
            (w.v)(vaddr.0, lane) == (u.v)(vaddr.0, lane),
        op matches OpOf::DsLoadU16 { vaddr, .. } ==> forall|lane: u32| #[trigger]
            (w.v)(vaddr.0, lane) == (u.v)(vaddr.0, lane),
        op matches OpOf::DsLoadU16D16 { dst, vaddr, .. } ==> {
            &&& forall|lane: u32| #[trigger] (w.v)(vaddr.0, lane) == (u.v)(vaddr.0, lane)
            &&& forall|lane: u32| #[trigger] (w.v)(dst.0, lane) == (u.v)(dst.0, lane)
        },
        op matches OpOf::DsLoadU16D16Hi { dst, vaddr, .. } ==> {
            &&& forall|lane: u32| #[trigger] (w.v)(vaddr.0, lane) == (u.v)(vaddr.0, lane)
            &&& forall|lane: u32| #[trigger] (w.v)(dst.0, lane) == (u.v)(dst.0, lane)
        },
        op matches OpOf::ScalarLoad { base, .. } ==> w.scalars(SReg(base.0), 2) == u.scalars(
            SReg(base.0),
            2,
        ),
        op matches OpOf::SMemLoadDword { base_lo, base_hi, .. } ==> (w.s)(base_lo.0) == (u.s)(
            base_lo.0,
        ) && (w.s)(base_hi.0) == (u.s)(base_hi.0),
        op matches OpOf::Wmma { a, b, c, .. } ==> w.matrix(a) == u.matrix(a) && w.matrix(b)
            == u.matrix(b) && w.matrix(c) == u.matrix(c),
{
    let uses = op_vreg_uses(op);
    let none = Seq::<VReg>::empty();
    match op {
        OpOf::GlobalLoad { addr, .. } => {
            assert(uses =~= none + vregs(addr, 2) + none);
            lemma_used_group(op, w, u, none, addr, 2, none);
        },
        OpOf::GlobalAtomicAddU32Rtn { addr, src, .. } => {
            assert(uses =~= none + vregs(addr, 2) + seq![src]);
            lemma_used_group(op, w, u, none, addr, 2, seq![src]);
        },
        OpOf::BufferLoad { voffset, srsrc, soffset, .. } => {
            lemma_used(op, w, u, 0, voffset);
            lemma_used_scalar_group(op, w, u, srsrc, 4, soffset_sregs(soffset));
            if soffset.0 != SOFFSET_ZERO {
                lemma_used_scalar(op, w, u, 4);
                assert(op_sreg_uses(op)[4] == soffset);
            }
        },
        OpOf::LdsLoad { addr, .. } => {
            lemma_used(op, w, u, 0, addr);
        },
        OpOf::DsLoadB32 { vaddr, .. }
        | OpOf::DsLoadB64 { vaddr, .. }
        | OpOf::DsLoadB128 { vaddr, .. }
        | OpOf::DsLoadU16 { vaddr, .. } => {
            lemma_used(op, w, u, 0, vaddr);
        },
        OpOf::DsLoadU16D16 { dst, vaddr, .. } | OpOf::DsLoadU16D16Hi { dst, vaddr, .. } => {
            lemma_used(op, w, u, 0, dst);
            lemma_used(op, w, u, 1, vaddr);
        },
        OpOf::ScalarLoad { base, .. } => {
            let r = SReg(base.0);
            assert(op_sreg_uses(op) =~= sregs(r, 2) + Seq::empty());
            lemma_used_scalar_group(op, w, u, r, 2, Seq::empty());
        },
        OpOf::SMemLoadDword { base_lo, base_hi, .. } => {
            lemma_used_scalar(op, w, u, 0);
            lemma_used_scalar(op, w, u, 1);
        },
        OpOf::Wmma { a, b, c, .. } => {
            let (x, y, z) = (vregs(a, 8), vregs(b, 8), vregs(c, 8));
            assert(uses =~= none + x + (y + z));
            assert(uses =~= x + y + z + none);
            lemma_used_group(op, w, u, none, a, 8, y + z);
            lemma_used_group(op, w, u, x, b, 8, z);
            lemma_used_group(op, w, u, x + y, c, 8, none);
            assert(w.matrix(a) =~= u.matrix(a));
            assert(w.matrix(b) =~= u.matrix(b));
            assert(w.matrix(c) =~= u.matrix(c));
        },
        _ => {},
    }
}

/// What a lane sends to memory: the bytes from where on, and the words.
pub struct Sent {
    /// What describes the buffer, if it goes to one.
    pub buffer: Option<Seq<u32>>,
    /// Whether it goes to the local data share.
    pub shared: bool,
    pub at: int,
    pub words: Seq<u32>,
}

/// What an operation sends to memory, if it does.
pub open spec fn sent(op: OpText, w: Wave, lane: u32) -> Option<Sent> {
    match op {
        OpOf::GlobalStore { addr, src, width, offset } => Some(
            Sent {
                buffer: None,
                shared: false,
                at: long(w.group(addr, 2, lane)) + offset,
                words: w.group(src, width.regs(), lane),
            },
        ),
        OpOf::GlobalAtomicAddF32 { addr, src, offset } => Some(
            Sent {
                buffer: None,
                shared: false,
                at: long(w.group(addr, 2, lane)) + offset,
                words: seq![(w.v)(src.0, lane)],
            },
        ),
        OpOf::GlobalAtomicAddU32Rtn { addr, src, .. } => Some(
            Sent {
                buffer: None,
                shared: false,
                at: long(w.group(addr, 2, lane)),
                words: seq![(w.v)(src.0, lane)],
            },
        ),
        OpOf::BufferStore { voffset, src, srsrc, width, offset, soffset } => Some(
            Sent {
                buffer: Some(w.scalars(srsrc, 4)),
                shared: false,
                at: (w.v)(voffset.0, lane) + w.scalar_offset(soffset) + offset,
                words: w.group(src, width.regs(), lane),
            },
        ),
        OpOf::LdsStore { addr, src, width, offset } => Some(
            Sent {
                buffer: None,
                shared: true,
                at: (w.v)(addr.0, lane) + offset,
                words: w.group(src, width.regs(), lane),
            },
        ),
        OpOf::DsStoreB16 { vaddr, src, offset } | OpOf::DsStoreB32 { vaddr, src, offset } => Some(
            Sent {
                buffer: None,
                shared: true,
                at: (w.v)(vaddr.0, lane) + offset,
                words: seq![(w.v)(src.0, lane)],
            },
        ),
        OpOf::DsStoreB64 { vaddr, src, offset } => Some(
            Sent {
                buffer: None,
                shared: true,
                at: (w.v)(vaddr.0, lane) + offset,
                words: w.group(src, 2, lane),
            },
        ),
        OpOf::DsStoreB128 { vaddr, src, offset } => Some(
            Sent {
                buffer: None,
                shared: true,
                at: (w.v)(vaddr.0, lane) + offset,
                words: w.group(src, 4, lane),
            },
        ),
        _ => None,
    }
}

/// What an operation sends to memory follows from the registers that it uses.
#[verifier::spinoff_prover]
#[verifier::rlimit(60)]
pub proof fn stores_follow_from_uses(op: OpText, w: Wave, u: Wave, lane: u32)
    requires
        alike(op, w, u),
    ensures
        sent(op, w, lane) == sent(op, u, lane),
{
    let uses = op_vreg_uses(op);
    let none = Seq::<VReg>::empty();
    match op {
        OpOf::GlobalStore { addr, src, width, .. } => {
            let (x, y) = (vregs(addr, 2), vregs(src, width.regs()));
            assert(uses =~= none + x + y);
            assert(uses =~= x + y + none);
            lemma_used_group(op, w, u, none, addr, 2, y);
            lemma_used_group(op, w, u, x, src, width.regs(), none);
            assert(w.group(addr, 2, lane) == u.group(addr, 2, lane));
            assert(w.group(src, width.regs(), lane) == u.group(src, width.regs(), lane));
        },
        OpOf::GlobalAtomicAddF32 { addr, src, .. }
        | OpOf::GlobalAtomicAddU32Rtn { addr, src, .. } => {
            assert(uses =~= none + vregs(addr, 2) + seq![src]);
            lemma_used_group(op, w, u, none, addr, 2, seq![src]);
            lemma_used(op, w, u, 2, src);
            assert(w.group(addr, 2, lane) == u.group(addr, 2, lane));
            assert((w.v)(src.0, lane) == (u.v)(src.0, lane));
        },
        OpOf::BufferStore { voffset, src, srsrc, width, soffset, .. } => {
            let y = vregs(src, width.regs());
            assert(uses =~= seq![voffset] + y + none);
            lemma_used(op, w, u, 0, voffset);
            lemma_used_group(op, w, u, seq![voffset], src, width.regs(), none);
            lemma_used_scalar_group(op, w, u, srsrc, 4, soffset_sregs(soffset));
            if soffset.0 != SOFFSET_ZERO {
                lemma_used_scalar(op, w, u, 4);
                assert(op_sreg_uses(op)[4] == soffset);
            }
            assert((w.v)(voffset.0, lane) == (u.v)(voffset.0, lane));
            assert(w.group(src, width.regs(), lane) == u.group(src, width.regs(), lane));
        },
        OpOf::LdsStore { addr, src, width, .. } => {
            let y = vregs(src, width.regs());
            assert(uses =~= seq![addr] + y + none);
            lemma_used(op, w, u, 0, addr);
            lemma_used_group(op, w, u, seq![addr], src, width.regs(), none);
            assert((w.v)(addr.0, lane) == (u.v)(addr.0, lane));
            assert(w.group(src, width.regs(), lane) == u.group(src, width.regs(), lane));
        },
        OpOf::DsStoreB16 { vaddr, src, .. } | OpOf::DsStoreB32 { vaddr, src, .. } => {
            lemma_used(op, w, u, 0, vaddr);
            lemma_used(op, w, u, 1, src);
            assert((w.v)(vaddr.0, lane) == (u.v)(vaddr.0, lane));
            assert((w.v)(src.0, lane) == (u.v)(src.0, lane));
        },
        OpOf::DsStoreB64 { vaddr, src, .. } => {
            assert(uses =~= seq![vaddr] + vregs(src, 2) + none);
            lemma_used(op, w, u, 0, vaddr);
            lemma_used_group(op, w, u, seq![vaddr], src, 2, none);
            assert((w.v)(vaddr.0, lane) == (u.v)(vaddr.0, lane));
            assert(w.group(src, 2, lane) == u.group(src, 2, lane));
        },
        OpOf::DsStoreB128 { vaddr, src, .. } => {
            assert(uses =~= seq![vaddr] + vregs(src, 4) + none);
            lemma_used(op, w, u, 0, vaddr);
            lemma_used_group(op, w, u, seq![vaddr], src, 4, none);
            assert((w.v)(vaddr.0, lane) == (u.v)(vaddr.0, lane));
            assert(w.group(src, 4, lane) == u.group(src, 4, lane));
        },
        _ => {},
    }
}

/// An operation that sends something to memory keeps its place; one that only works on registers
/// or fills them has no effect besides the registers and the condition codes that it writes.
pub proof fn effects_are_on_memory(op: OpText, w: Wave, lane: u32)
    ensures
        sent(op, w, lane) is Some ==> op_has_side_effects(op),
        on_vectors(op) || on_scalars(op) ==> !op_has_side_effects(op),
        fetches(op) && sent(op, w, lane) is None ==> !op_has_side_effects(op),
        sent(op, w, lane) is Some && !fetches(op) ==> op_vreg_defs(op).len() == 0 && op_sreg_defs(
            op,
        ).len() == 0,
{
}

// ── Arguments ──
/// A wave behind loads.
pub open spec fn fetch_run(ops: Seq<OpText>, m: Memory, w: Wave) -> Wave
    decreases ops.len(),
{
    if ops.len() == 0 {
        w
    } else {
        fetch_step(ops.last(), m, fetch_run(ops.drop_last(), m, w))
    }
}

/// Whether arguments have registers of their own, and none of those that tell where the arguments
/// are.
pub open spec fn arguments_apart(args: Seq<KernArgText>) -> bool {
    &&& forall|i: int|
        0 <= i < args.len() ==> (#[trigger] args[i]).sreg.0 + arg_sregs(args[i].kind)
            <= T0Kernel::KERNARG_BASE_SENTINEL
    &&& forall|i: int, j: int|
        0 <= i < j < args.len() ==> (#[trigger] args[i]).sreg.0 + arg_sregs(args[i].kind) <= (
        #[trigger] args[j]).sreg.0
}

/// Arguments are loaded: behind the operations that load them, the registers of an argument hold
/// the bytes of the argument, word by word, and so they do for every argument.
pub proof fn arguments_are_loaded(args: Seq<KernArgText>, i: int, word: int, m: Memory, w: Wave)
    requires
        arguments_apart(args),
        0 <= i < args.len(),
        0 <= word,
        4 * word < arg_size(args[i].kind),
    ensures
        ({
            let b = fetch_run(arg_load_ops(args), m, w);
            let base = long(w.scalars(SReg(T0Kernel::KERNARG_BASE_SENTINEL), 2));
            (b.s)((args[i].sreg.0 + word) as u32) == (m.words)(base + args[i].offset + 4 * word)
        }),
    decreases args.len(),
{
    let ops = arg_load_ops(args);
    let n = args.len() - 1;
    let rest = args.drop_last();
    assert(ops.drop_last() =~= arg_load_ops(rest));
    let a = fetch_run(arg_load_ops(rest), m, w);
    let b = fetch_run(ops, m, w);
    let last = args.last();
    assert(b == fetch_step(ops.last(), m, a));
    lemma_base_stays(rest, m, w);
    if i < n {
        assert(arguments_apart(rest)) by {
            assert forall|x: int| 0 <= x < rest.len() implies (#[trigger] rest[x]).sreg.0
                + arg_sregs(rest[x].kind) <= T0Kernel::KERNARG_BASE_SENTINEL by {
                assert(rest[x] == args[x]);
            }
            assert forall|x: int, y: int| 0 <= x < y < rest.len() implies (
            #[trigger] rest[x]).sreg.0 + arg_sregs(rest[x].kind) <= (#[trigger] rest[y]).sreg.0 by {
                assert(rest[x] == args[x] && rest[y] == args[y]);
            }
        }
        assert(rest[i] == args[i]);
        arguments_are_loaded(rest, i, word, m, w);
        assert(args[i].sreg.0 + arg_sregs(args[i].kind) <= args[n].sreg.0);
    } else {
        assert(args[i].sreg.0 + arg_sregs(args[i].kind) <= T0Kernel::KERNARG_BASE_SENTINEL);
    }
}

/// Where the arguments are is not changed by loading them.
proof fn lemma_base_stays(args: Seq<KernArgText>, m: Memory, w: Wave)
    requires
        forall|i: int|
            0 <= i < args.len() ==> (#[trigger] args[i]).sreg.0 + arg_sregs(args[i].kind)
                <= T0Kernel::KERNARG_BASE_SENTINEL,
    ensures
        fetch_run(arg_load_ops(args), m, w).scalars(SReg(T0Kernel::KERNARG_BASE_SENTINEL), 2)
            == w.scalars(SReg(T0Kernel::KERNARG_BASE_SENTINEL), 2),
    decreases args.len(),
{
    let r = SReg(T0Kernel::KERNARG_BASE_SENTINEL);
    if args.len() > 0 {
        let rest = args.drop_last();
        let ops = arg_load_ops(args);
        assert(ops.drop_last() =~= arg_load_ops(rest));
        assert forall|i: int| 0 <= i < rest.len() implies (#[trigger] rest[i]).sreg.0 + arg_sregs(
            rest[i].kind,
        ) <= T0Kernel::KERNARG_BASE_SENTINEL by {
            assert(rest[i] == args[i]);
        }
        lemma_base_stays(rest, m, w);
        let a = fetch_run(arg_load_ops(rest), m, w);
        let b = fetch_run(ops, m, w);
        assert(args[args.len() - 1].sreg.0 + arg_sregs(args.last().kind)
            <= T0Kernel::KERNARG_BASE_SENTINEL);
        assert(b == fetch_step(ops.last(), m, a));
        assert forall|i: int| 0 <= i < 2 implies b.scalars(r, 2)[i] == a.scalars(r, 2)[i] by {
            assert((b.s)(sregs(r, 2)[i].0) == (a.s)(sregs(r, 2)[i].0));
        }
        assert(b.scalars(r, 2) =~= a.scalars(r, 2));
    }
}

} // verus!
