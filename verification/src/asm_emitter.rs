//! Assembly text for placed operations.
//!
//! Most operations are one line: a mnemonic and its operands. The emitter also counts
//! the memory accesses that are outstanding, so that a wait asks for no more than there
//! is to wait for, and marks a vector operation that reads what one of the four vector
//! operations before it wrote.
use vstd::prelude::*;

use crate::ir::{
    Op, OpOf, Operand, SOFFSET_ZERO, SOperand, SReg, SRegPair, Target, VReg, Width, WmmaFormat,
    op_vreg_defs, op_vreg_uses, sregs, vregs,
};
use crate::latency_model::{Pipeline, WaitCounter, latency_of, op_latency};
use crate::regalloc::RegAlloc;
use crate::text::{
    dec, hex_padded, hex_text, int_text, push_dec, push_hex, push_hex_padded, push_int,
};

verus! {

/// Base registers from here on stand for the kernel argument pointer in `s[0:1]`.
pub const KERNARG_BASE_MIN: u32 = 0xFFFF_FF91;

// ── Placement ──
/// Whether consecutive vector registers have consecutive places.
pub open spec fn vrange_placed(base: VReg, n: nat, ra: RegAlloc) -> bool {
    forall|i: int|
        0 <= i < n
            ==> ra.has_v(#[trigger] vregs(base, n)[i]) && ra.v(vregs(base, n)[i]) == ra.v(base)
            + i
}

/// Whether consecutive scalar registers have consecutive places.
pub open spec fn srange_placed(base: SReg, n: nat, ra: RegAlloc) -> bool {
    forall|i: int|
        0 <= i < n
            ==> ra.has_s(#[trigger] sregs(base, n)[i]) && ra.s(sregs(base, n)[i]) == ra.s(base)
            + i
}

/// Whether the register that an operand names has a place.
pub open spec fn operand_placed(o: Operand, ra: RegAlloc) -> bool {
    o matches Operand::VReg(v) ==> ra.has_v(v)
}

/// Whether the register that an operand names has a place.
pub open spec fn soperand_placed(o: SOperand, ra: RegAlloc) -> bool {
    o matches SOperand::SReg(s) ==> ra.has_s(s)
}

/// Whether an operation can be written down: its registers have places, ranges of them
/// consecutive ones, and a scalar load is not 16 bits wide.
pub open spec fn encodable<S>(op: OpOf<S>, ra: RegAlloc) -> bool {
    match op {
        OpOf::GlobalLoad { dst, addr, width, .. } => {
            &&& vrange_placed(dst, width.regs(), ra)
            &&& vrange_placed(addr, 2, ra)
        },
        OpOf::GlobalStore { addr, src, width, .. } => {
            &&& vrange_placed(addr, 2, ra)
            &&& vrange_placed(src, width.regs(), ra)
        },
        OpOf::BufferLoad { dst, voffset, srsrc, width, soffset, .. } => {
            &&& vrange_placed(dst, width.regs(), ra)
            &&& ra.has_v(voffset)
            &&& srange_placed(srsrc, 4, ra)
            &&& (soffset.0 == SOFFSET_ZERO || ra.has_s(soffset))
        },
        OpOf::BufferStore { voffset, src, srsrc, width, soffset, .. } => {
            &&& ra.has_v(voffset)
            &&& vrange_placed(src, width.regs(), ra)
            &&& srange_placed(srsrc, 4, ra)
            &&& (soffset.0 == SOFFSET_ZERO || ra.has_s(soffset))
        },
        OpOf::GlobalAtomicAddF32 { addr, src, .. } => {
            &&& vrange_placed(addr, 2, ra)
            &&& ra.has_v(src)
        },
        OpOf::GlobalAtomicAddU32Rtn { dst, addr, src } => {
            &&& ra.has_v(dst)
            &&& vrange_placed(addr, 2, ra)
            &&& ra.has_v(src)
        },
        OpOf::BufferWbl2 { addr } => {
            &&& ra.has_v(addr)
        },
        OpOf::LdsLoad { dst, addr, width, .. } => {
            &&& vrange_placed(dst, width.regs(), ra)
            &&& ra.has_v(addr)
        },
        OpOf::LdsStore { addr, src, width, .. } => {
            &&& ra.has_v(addr)
            &&& vrange_placed(src, width.regs(), ra)
        },
        OpOf::DsStoreB16 { vaddr, src, .. }
        | OpOf::DsStoreB32 { vaddr, src, .. } => {
            &&& ra.has_v(vaddr)
            &&& ra.has_v(src)
        },
        OpOf::DsStoreB64 { vaddr, src, .. } => {
            &&& ra.has_v(vaddr)
            &&& vrange_placed(src, 2, ra)
        },
        OpOf::DsStoreB128 { vaddr, src, .. } => {
            &&& ra.has_v(vaddr)
            &&& vrange_placed(src, 4, ra)
        },
        OpOf::DsLoadB32 { dst, vaddr, .. }
        | OpOf::DsLoadU16 { dst, vaddr, .. }
        | OpOf::DsLoadU16D16 { dst, vaddr, .. }
        | OpOf::DsLoadU16D16Hi { dst, vaddr, .. } => {
            &&& ra.has_v(dst)
            &&& ra.has_v(vaddr)
        },
        OpOf::DsLoadB64 { dst, vaddr, .. } => {
            &&& vrange_placed(dst, 2, ra)
            &&& ra.has_v(vaddr)
        },
        OpOf::DsLoadB128 { dst, vaddr, .. } => {
            &&& vrange_placed(dst, 4, ra)
            &&& ra.has_v(vaddr)
        },
        OpOf::ScalarLoad { dst, base, width, .. } => {
            &&& width !is B16
            &&& srange_placed(dst, width.regs(), ra)
            &&& (base.0 >= KERNARG_BASE_MIN || srange_placed(SReg(base.0), 2, ra))
        },
        OpOf::SMemLoadDword { dst, base_lo, base_hi, .. } => {
            &&& ra.has_s(dst)
            &&& ra.has_s(base_lo)
            &&& ra.has_s(base_hi)
        },
        OpOf::VAddF32 { dst, src0, src1 }
        | OpOf::VMulF32 { dst, src0, src1 }
        | OpOf::VSubF32 { dst, src0, src1 }
        | OpOf::VMaxF32 { dst, src0, src1 }
        | OpOf::VMinF32 { dst, src0, src1 }
        | OpOf::VMinU32 { dst, src0, src1 }
        | OpOf::VAddU32 { dst, src0, src1 }
        | OpOf::VSubU32 { dst, src0, src1 }
        | OpOf::VAndB32 { dst, src0, src1 }
        | OpOf::VOrB32 { dst, src0, src1 }
        | OpOf::VXorB32 { dst, src0, src1 } => {
            &&& ra.has_v(dst)
            &&& operand_placed(src0, ra)
            &&& operand_placed(src1, ra)
        },
        OpOf::VFmaF32 { dst, src0, src1, src2 } => {
            &&& ra.has_v(dst)
            &&& operand_placed(src0, ra)
            &&& operand_placed(src1, ra)
            &&& operand_placed(src2, ra)
        },
        OpOf::VMov { dst, src } => {
            &&& ra.has_v(dst)
            &&& operand_placed(src, ra)
        },
        OpOf::VMovFromSgpr { dst, src } => {
            &&& ra.has_v(dst)
            &&& ra.has_s(src)
        },
        OpOf::VMulLoU32 { dst, src0, src1 }
        | OpOf::CvtPkBf16F32 { dst, src0, src1 }
        | OpOf::VAddCo { dst, src0, src1 }
        | OpOf::VAddCOU32 { dst, src0, src1 } => {
            &&& ra.has_v(dst)
            &&& ra.has_v(src0)
            &&& ra.has_v(src1)
        },
        OpOf::VLshlrevB32 { dst, src, .. }
        | OpOf::VLshrrevB32 { dst, src, .. }
        | OpOf::VCvtF32U32 { dst, src }
        | OpOf::VCvtU32F32 { dst, src }
        | OpOf::VPermlanex16B32 { dst, src }
        | OpOf::VRsqF32 { dst, src }
        | OpOf::VExpF32 { dst, src }
        | OpOf::VSinF32 { dst, src }
        | OpOf::VCosF32 { dst, src }
        | OpOf::VRcpF32 { dst, src }
        | OpOf::VSqrtF32 { dst, src }
        | OpOf::VLog2F32 { dst, src }
        | OpOf::VAddCoCi { dst, src }
        | OpOf::VAddCCU32 { dst, src }
        | OpOf::DsSwizzle { dst, src, .. } => {
            &&& ra.has_v(dst)
            &&& ra.has_v(src)
        },
        OpOf::VLshrrevB32Vgpr { dst, shift, src } => {
            &&& ra.has_v(dst)
            &&& ra.has_v(shift)
            &&& ra.has_v(src)
        },
        OpOf::VAndOrB32 { dst, src0, src2, .. } => {
            &&& ra.has_v(dst)
            &&& ra.has_v(src0)
            &&& ra.has_v(src2)
        },
        OpOf::VReadfirstlane { dst, src } => {
            &&& ra.has_v(src)
            &&& ra.has_s(dst)
        },
        OpOf::VCmpLtU32 { src0, src1 }
        | OpOf::VCmpGeU32 { src0, src1 }
        | OpOf::VCmpGtU32 { src0, src1 }
        | OpOf::VCmpEqU32 { src0, src1 }
        | OpOf::VCmpEqF32 { src0, src1 }
        | OpOf::VCmpGtF32 { src0, src1 }
        | OpOf::VCmpLtF32 { src0, src1 }
        | OpOf::VCmpGeF32 { src0, src1 } => {
            &&& operand_placed(src0, ra)
            &&& operand_placed(src1, ra)
        },
        OpOf::VCmpGtF32Imm0 { src }
        | OpOf::VCmpGtU32Imm { src, .. }
        | OpOf::VCmpEqU32Imm { src, .. } => {
            &&& ra.has_v(src)
        },
        OpOf::VCmpGeI32 { src0, src1 } => {
            &&& ra.has_v(src0)
            &&& ra.has_v(src1)
        },
        OpOf::VCndmaskB32 { dst, src_false, src_true } => {
            &&& ra.has_v(dst)
            &&& operand_placed(src_false, ra)
            &&& operand_placed(src_true, ra)
        },
        OpOf::SAddU32 { dst, src0, src1 }
        | OpOf::SAddcU32 { dst, src0, src1 }
        | OpOf::SSubU32 { dst, src0, src1 }
        | OpOf::SAndB32 { dst, src0, src1 } => {
            &&& ra.has_s(dst)
            &&& ra.has_s(src0)
            &&& soperand_placed(src1, ra)
        },
        OpOf::SMulI32 { dst, src0, src1 } => {
            &&& ra.has_s(dst)
            &&& ra.has_s(src0)
            &&& ra.has_s(src1)
        },
        OpOf::SLshlB32 { dst, src, .. }
        | OpOf::SLshrB32 { dst, src, .. } => {
            &&& ra.has_s(dst)
            &&& ra.has_s(src)
        },
        OpOf::SMov { dst, src } => {
            &&& ra.has_s(dst)
            &&& soperand_placed(src, ra)
        },
        OpOf::SCmpLtU32 { src0, src1 }
        | OpOf::SCmpGeU32 { src0, src1 } => {
            &&& ra.has_s(src0)
            &&& ra.has_s(src1)
        },
        OpOf::SCmpEqU32 { src0, src1 } => {
            &&& ra.has_s(src0)
            &&& soperand_placed(src1, ra)
        },
        OpOf::SMovToVcc { src }
        | OpOf::RestoreExec { src } => {
            &&& ra.has_s(src)
        },
        OpOf::Wmma { dst, a, b, c, .. } => {
            &&& vrange_placed(dst, 8, ra)
            &&& vrange_placed(a, 8, ra)
            &&& vrange_placed(b, 8, ra)
            &&& vrange_placed(c, 8, ra)
        },
        OpOf::WaveReduceAddF32 { val, tmp }
        | OpOf::WaveReduceMaxF32 { val, tmp }
        | OpOf::WaveReduceMinF32 { val, tmp } => {
            &&& ra.has_v(val)
            &&& ra.has_v(tmp)
        },
        OpOf::SaveExec { dst }
        | OpOf::CaptureTgid { dst, .. } => {
            &&& ra.has_s(dst)
        },
        OpOf::XorExec { saved } => {
            &&& ra.has_s(saved)
        },
        OpOf::ComputeGlobalIdX { dst, .. }
        | OpOf::ReadShaderCycles { dst } => {
            &&& ra.has_v(dst)
        },
        _ => true,
    }
}

/// Whether consecutive vector registers have consecutive places.
fn vrange_is_placed(base: VReg, n: u32, ra: &RegAlloc) -> (r: bool)
    requires
        0 < n <= 8,
    ensures
        r == vrange_placed(base, n as nat, *ra),
{
    assert(vregs(base, n as nat)[0] == base);
    match ra.find_v(base) {
        None => false,
        Some(first) => {
            let mut i: u32 = 0;
            while i < n
                invariant
                    i <= n <= 8,
                    ra.has_v(base) && first == ra.v(base),
                    forall|k: int|
                        0 <= k < i ==> ra.has_v(#[trigger] vregs(base, n as nat)[k]) && ra.v(
                            vregs(base, n as nat)[k],
                        ) == ra.v(base) + k,
                decreases n - i,
            {
                let v = VReg(base.0.wrapping_add(i));
                assert(vregs(base, n as nat)[i as int] == v);
                match ra.find_v(v) {
                    None => {
                        return false;
                    },
                    Some(p) => {
                        if p as u32 != first as u32 + i {
                            return false;
                        }
                    },
                }
                i = i + 1;
            }
            true
        },
    }
}

/// Whether consecutive scalar registers have consecutive places.
fn srange_is_placed(base: SReg, n: u32, ra: &RegAlloc) -> (r: bool)
    requires
        0 < n <= 8,
    ensures
        r == srange_placed(base, n as nat, *ra),
{
    assert(sregs(base, n as nat)[0] == base);
    match ra.find_s(base) {
        None => false,
        Some(first) => {
            let mut i: u32 = 0;
            while i < n
                invariant
                    i <= n <= 8,
                    ra.has_s(base) && first == ra.s(base),
                    forall|k: int|
                        0 <= k < i ==> ra.has_s(#[trigger] sregs(base, n as nat)[k]) && ra.s(
                            sregs(base, n as nat)[k],
                        ) == ra.s(base) + k,
                decreases n - i,
            {
                let s = SReg(base.0.wrapping_add(i));
                assert(sregs(base, n as nat)[i as int] == s);
                match ra.find_s(s) {
                    None => {
                        return false;
                    },
                    Some(p) => {
                        if p as u32 != first as u32 + i {
                            return false;
                        }
                    },
                }
                i = i + 1;
            }
            true
        },
    }
}

/// Whether the register that an operand names has a place.
fn operand_is_placed(o: Operand, ra: &RegAlloc) -> (r: bool)
    ensures
        r == operand_placed(o, *ra),
{
    match o {
        Operand::VReg(v) => ra.find_v(v).is_some(),
        _ => true,
    }
}

/// Whether the register that an operand names has a place.
fn soperand_is_placed(o: SOperand, ra: &RegAlloc) -> (r: bool)
    ensures
        r == soperand_placed(o, *ra),
{
    match o {
        SOperand::SReg(s) => ra.find_s(s).is_some(),
        _ => true,
    }
}

/// Whether an operation can be written down.
pub fn is_encodable(op: &Op, ra: &RegAlloc) -> (r: bool)
    ensures
        r == encodable(*op, *ra),
{
    match op {
        OpOf::GlobalLoad { dst, addr, width, .. } => {
            vrange_is_placed(*dst, width.vreg_count(), ra) && vrange_is_placed(*addr, 2, ra)
        },
        OpOf::GlobalStore { addr, src, width, .. } => {
            vrange_is_placed(*addr, 2, ra) && vrange_is_placed(*src, width.vreg_count(), ra)
        },
        OpOf::BufferLoad { dst, voffset, srsrc, width, soffset, .. } => {
            vrange_is_placed(*dst, width.vreg_count(), ra)
                && ra.find_v(*voffset).is_some()
                && srange_is_placed(*srsrc, 4, ra)
                && (soffset.0 == SOFFSET_ZERO || ra.find_s(*soffset).is_some())
        },
        OpOf::BufferStore { voffset, src, srsrc, width, soffset, .. } => {
            ra.find_v(*voffset).is_some()
                && vrange_is_placed(*src, width.vreg_count(), ra)
                && srange_is_placed(*srsrc, 4, ra)
                && (soffset.0 == SOFFSET_ZERO || ra.find_s(*soffset).is_some())
        },
        OpOf::GlobalAtomicAddF32 { addr, src, .. } => {
            vrange_is_placed(*addr, 2, ra) && ra.find_v(*src).is_some()
        },
        OpOf::GlobalAtomicAddU32Rtn { dst, addr, src } => {
            ra.find_v(*dst).is_some() && vrange_is_placed(*addr, 2, ra) && ra.find_v(*src).is_some()
        },
        OpOf::BufferWbl2 { addr } => {
            ra.find_v(*addr).is_some()
        },
        OpOf::LdsLoad { dst, addr, width, .. } => {
            vrange_is_placed(*dst, width.vreg_count(), ra) && ra.find_v(*addr).is_some()
        },
        OpOf::LdsStore { addr, src, width, .. } => {
            ra.find_v(*addr).is_some() && vrange_is_placed(*src, width.vreg_count(), ra)
        },
        OpOf::DsStoreB16 { vaddr, src, .. }
        | OpOf::DsStoreB32 { vaddr, src, .. } => {
            ra.find_v(*vaddr).is_some() && ra.find_v(*src).is_some()
        },
        OpOf::DsStoreB64 { vaddr, src, .. } => {
            ra.find_v(*vaddr).is_some() && vrange_is_placed(*src, 2, ra)
        },
        OpOf::DsStoreB128 { vaddr, src, .. } => {
            ra.find_v(*vaddr).is_some() && vrange_is_placed(*src, 4, ra)
        },
        OpOf::DsLoadB32 { dst, vaddr, .. }
        | OpOf::DsLoadU16 { dst, vaddr, .. }
        | OpOf::DsLoadU16D16 { dst, vaddr, .. }
        | OpOf::DsLoadU16D16Hi { dst, vaddr, .. } => {
            ra.find_v(*dst).is_some() && ra.find_v(*vaddr).is_some()
        },
        OpOf::DsLoadB64 { dst, vaddr, .. } => {
            vrange_is_placed(*dst, 2, ra) && ra.find_v(*vaddr).is_some()
        },
        OpOf::DsLoadB128 { dst, vaddr, .. } => {
            vrange_is_placed(*dst, 4, ra) && ra.find_v(*vaddr).is_some()
        },
        OpOf::ScalarLoad { dst, base, width, .. } => {
            !matches!(*width, Width::B16)
                && srange_is_placed(*dst, width.vreg_count(), ra)
                && (base.0 >= KERNARG_BASE_MIN || srange_is_placed(SReg(base.0), 2, ra))
        },
        OpOf::SMemLoadDword { dst, base_lo, base_hi, .. } => {
            ra.find_s(*dst).is_some()
                && ra.find_s(*base_lo).is_some()
                && ra.find_s(*base_hi).is_some()
        },
        OpOf::VAddF32 { dst, src0, src1 }
        | OpOf::VMulF32 { dst, src0, src1 }
        | OpOf::VSubF32 { dst, src0, src1 }
        | OpOf::VMaxF32 { dst, src0, src1 }
        | OpOf::VMinF32 { dst, src0, src1 }
        | OpOf::VMinU32 { dst, src0, src1 }
        | OpOf::VAddU32 { dst, src0, src1 }
        | OpOf::VSubU32 { dst, src0, src1 }
        | OpOf::VAndB32 { dst, src0, src1 }
        | OpOf::VOrB32 { dst, src0, src1 }
        | OpOf::VXorB32 { dst, src0, src1 } => {
            ra.find_v(*dst).is_some()
                && operand_is_placed(*src0, ra)
                && operand_is_placed(*src1, ra)
        },
        OpOf::VFmaF32 { dst, src0, src1, src2 } => {
            ra.find_v(*dst).is_some()
                && operand_is_placed(*src0, ra)
                && operand_is_placed(*src1, ra)
                && operand_is_placed(*src2, ra)
        },
        OpOf::VMov { dst, src } => {
            ra.find_v(*dst).is_some() && operand_is_placed(*src, ra)
        },
        OpOf::VMovFromSgpr { dst, src } => {
            ra.find_v(*dst).is_some() && ra.find_s(*src).is_some()
        },
        OpOf::VMulLoU32 { dst, src0, src1 }
        | OpOf::CvtPkBf16F32 { dst, src0, src1 }
        | OpOf::VAddCo { dst, src0, src1 }
        | OpOf::VAddCOU32 { dst, src0, src1 } => {
            ra.find_v(*dst).is_some() && ra.find_v(*src0).is_some() && ra.find_v(*src1).is_some()
        },
        OpOf::VLshlrevB32 { dst, src, .. }
        | OpOf::VLshrrevB32 { dst, src, .. }
        | OpOf::VCvtF32U32 { dst, src }
        | OpOf::VCvtU32F32 { dst, src }
        | OpOf::VPermlanex16B32 { dst, src }
        | OpOf::VRsqF32 { dst, src }
        | OpOf::VExpF32 { dst, src }
        | OpOf::VSinF32 { dst, src }
        | OpOf::VCosF32 { dst, src }
        | OpOf::VRcpF32 { dst, src }
        | OpOf::VSqrtF32 { dst, src }
        | OpOf::VLog2F32 { dst, src }
        | OpOf::VAddCoCi { dst, src }
        | OpOf::VAddCCU32 { dst, src }
        | OpOf::DsSwizzle { dst, src, .. } => {
            ra.find_v(*dst).is_some() && ra.find_v(*src).is_some()
        },
        OpOf::VLshrrevB32Vgpr { dst, shift, src } => {
            ra.find_v(*dst).is_some() && ra.find_v(*shift).is_some() && ra.find_v(*src).is_some()
        },
        OpOf::VAndOrB32 { dst, src0, src2, .. } => {
            ra.find_v(*dst).is_some() && ra.find_v(*src0).is_some() && ra.find_v(*src2).is_some()
        },
        OpOf::VReadfirstlane { dst, src } => {
            ra.find_v(*src).is_some() && ra.find_s(*dst).is_some()
        },
        OpOf::VCmpLtU32 { src0, src1 }
        | OpOf::VCmpGeU32 { src0, src1 }
        | OpOf::VCmpGtU32 { src0, src1 }
        | OpOf::VCmpEqU32 { src0, src1 }
        | OpOf::VCmpEqF32 { src0, src1 }
        | OpOf::VCmpGtF32 { src0, src1 }
        | OpOf::VCmpLtF32 { src0, src1 }
        | OpOf::VCmpGeF32 { src0, src1 } => {
            operand_is_placed(*src0, ra) && operand_is_placed(*src1, ra)
        },
        OpOf::VCmpGtF32Imm0 { src }
        | OpOf::VCmpGtU32Imm { src, .. }
        | OpOf::VCmpEqU32Imm { src, .. } => {
            ra.find_v(*src).is_some()
        },
        OpOf::VCmpGeI32 { src0, src1 } => {
            ra.find_v(*src0).is_some() && ra.find_v(*src1).is_some()
        },
        OpOf::VCndmaskB32 { dst, src_false, src_true } => {
            ra.find_v(*dst).is_some()
                && operand_is_placed(*src_false, ra)
                && operand_is_placed(*src_true, ra)
        },
        OpOf::SAddU32 { dst, src0, src1 }
        | OpOf::SAddcU32 { dst, src0, src1 }
        | OpOf::SSubU32 { dst, src0, src1 }
        | OpOf::SAndB32 { dst, src0, src1 } => {
            ra.find_s(*dst).is_some() && ra.find_s(*src0).is_some() && soperand_is_placed(*src1, ra)
        },
        OpOf::SMulI32 { dst, src0, src1 } => {
            ra.find_s(*dst).is_some() && ra.find_s(*src0).is_some() && ra.find_s(*src1).is_some()
        },
        OpOf::SLshlB32 { dst, src, .. }
        | OpOf::SLshrB32 { dst, src, .. } => {
            ra.find_s(*dst).is_some() && ra.find_s(*src).is_some()
        },
        OpOf::SMov { dst, src } => {
            ra.find_s(*dst).is_some() && soperand_is_placed(*src, ra)
        },
        OpOf::SCmpLtU32 { src0, src1 }
        | OpOf::SCmpGeU32 { src0, src1 } => {
            ra.find_s(*src0).is_some() && ra.find_s(*src1).is_some()
        },
        OpOf::SCmpEqU32 { src0, src1 } => {
            ra.find_s(*src0).is_some() && soperand_is_placed(*src1, ra)
        },
        OpOf::SMovToVcc { src }
        | OpOf::RestoreExec { src } => {
            ra.find_s(*src).is_some()
        },
        OpOf::Wmma { dst, a, b, c, .. } => {
            vrange_is_placed(*dst, 8, ra)
                && vrange_is_placed(*a, 8, ra)
                && vrange_is_placed(*b, 8, ra)
                && vrange_is_placed(*c, 8, ra)
        },
        OpOf::WaveReduceAddF32 { val, tmp }
        | OpOf::WaveReduceMaxF32 { val, tmp }
        | OpOf::WaveReduceMinF32 { val, tmp } => {
            ra.find_v(*val).is_some() && ra.find_v(*tmp).is_some()
        },
        OpOf::SaveExec { dst }
        | OpOf::CaptureTgid { dst, .. } => {
            ra.find_s(*dst).is_some()
        },
        OpOf::XorExec { saved } => {
            ra.find_s(*saved).is_some()
        },
        OpOf::ComputeGlobalIdX { dst, .. }
        | OpOf::ReadShaderCycles { dst } => {
            ra.find_v(*dst).is_some()
        },
        _ => true,
    }
}

/// The vector registers of an operation that can be written down have places.
proof fn lemma_refs_placed<S>(op: OpOf<S>, ra: RegAlloc)
    requires
        encodable(op, ra),
    ensures
        forall|i: int| 0 <= i < op_vreg_uses(op).len() ==> ra.has_v(#[trigger] op_vreg_uses(op)[i]),
        forall|i: int| 0 <= i < op_vreg_defs(op).len() ==> ra.has_v(#[trigger] op_vreg_defs(op)[i]),
{
}

// ── Operand text ──
/// A vector register.
pub open spec fn vt(v: VReg, ra: RegAlloc) -> Seq<char> {
    "v"@ + dec(ra.v(v) as nat)
}

/// A scalar register.
pub open spec fn st(s: SReg, ra: RegAlloc) -> Seq<char> {
    "s"@ + dec(ra.s(s) as nat)
}

/// A range of registers of the file `file`: `v0` for a single one, `v[0:3]` for several.
pub open spec fn range_text(file: Seq<char>, base: nat, n: nat) -> Seq<char> {
    if n == 1 {
        file + dec(base)
    } else {
        file + "["@ + dec(base) + ":"@ + dec((base + n - 1) as nat) + "]"@
    }
}

/// A range of vector registers.
pub open spec fn vrt(v: VReg, n: nat, ra: RegAlloc) -> Seq<char> {
    range_text("v"@, ra.v(v) as nat, n)
}

/// A range of scalar registers.
pub open spec fn srt(s: SReg, n: nat, ra: RegAlloc) -> Seq<char> {
    range_text("s"@, ra.s(s) as nat, n)
}

/// The text of a float that is an inline constant, by its bits; other floats are written
/// as their bits.
pub open spec fn float_text(bits: u32) -> Seq<char> {
    match bits {
        0x0000_0000 | 0x8000_0000 => "0"@,
        0x3F00_0000 => "0.5"@,
        0x3F80_0000 => "1.0"@,
        0x4000_0000 => "2.0"@,
        0x4080_0000 => "4.0"@,
        0xBF00_0000 => "-0.5"@,
        0xBF80_0000 => "-1.0"@,
        0xC000_0000 => "-2.0"@,
        0xC080_0000 => "-4.0"@,
        _ => hex_padded(bits as nat, 8),
    }
}

/// A vector operand.
pub open spec fn ot(o: Operand, ra: RegAlloc) -> Seq<char> {
    match o {
        Operand::VReg(v) => vt(v, ra),
        Operand::InlineInt(n) => int_text(n as int),
        Operand::InlineFloat(bits) => float_text(bits),
        Operand::Literal(n) => hex_text(n as nat),
    }
}

/// A scalar operand.
pub open spec fn sot(o: SOperand, ra: RegAlloc) -> Seq<char> {
    match o {
        SOperand::SReg(s) => st(s, ra),
        SOperand::InlineInt(n) => int_text(n as int),
        SOperand::Literal(n) => hex_text(n as nat),
        SOperand::Vcc => "vcc_lo"@,
    }
}

/// The offset of a memory access, left out when zero.
pub open spec fn offset_text(offset: int) -> Seq<char> {
    if offset == 0 {
        ""@
    } else {
        " offset:"@ + int_text(offset)
    }
}

/// The scalar offset of a buffer access.
pub open spec fn soffset_text(s: SReg, ra: RegAlloc) -> Seq<char> {
    if s.0 == SOFFSET_ZERO {
        "0"@
    } else {
        st(s, ra)
    }
}

/// The name of a workgroup axis.
pub open spec fn axis_text(axis: u8) -> Seq<char> {
    if axis == 0 {
        "x"@
    } else if axis == 1 {
        "y"@
    } else {
        "z"@
    }
}

/// A vector register.
fn vreg_str(v: VReg, ra: &RegAlloc) -> (r: String)
    requires
        ra.has_v(v),
    ensures
        r@ == vt(v, *ra),
{
    let mut r = String::new();
    r.append("v");
    push_dec(&mut r, ra.phys_v(v) as u64);
    assert(r@ =~= vt(v, *ra));
    r
}

/// A scalar register.
fn sreg_str(s: SReg, ra: &RegAlloc) -> (r: String)
    requires
        ra.has_s(s),
    ensures
        r@ == st(s, *ra),
{
    let mut r = String::new();
    r.append("s");
    push_dec(&mut r, ra.phys_s(s) as u64);
    assert(r@ =~= st(s, *ra));
    r
}

/// A range of registers of one file.
fn range_str(file: &str, base: u8, count: u32) -> (r: String)
    requires
        count > 0,
    ensures
        r@ == range_text(file@, base as nat, count as nat),
{
    let mut r = String::new();
    r.append(file);
    if count == 1 {
        push_dec(&mut r, base as u64);
    } else {
        r.append("[");
        push_dec(&mut r, base as u64);
        r.append(":");
        push_dec(&mut r, base as u64 + count as u64 - 1);
        r.append("]");
    }
    assert(r@ =~= range_text(file@, base as nat, count as nat));
    r
}

/// A range of vector registers: `v0` for a single one, `v[0:3]` for several.
pub fn vreg_range_str(base: u8, count: u32) -> (r: String)
    requires
        count > 0,
    ensures
        r@ == range_text("v"@, base as nat, count as nat),
{
    range_str("v", base, count)
}

/// A range of scalar registers.
pub fn sreg_range_str(base: u8, count: u32) -> (r: String)
    requires
        count > 0,
    ensures
        r@ == range_text("s"@, base as nat, count as nat),
{
    range_str("s", base, count)
}

/// A decimal number.
fn dec_str(n: u64) -> (r: String)
    ensures
        r@ == dec(n as nat),
{
    let mut r = String::new();
    push_dec(&mut r, n);
    assert(r@ =~= dec(n as nat));
    r
}

/// A number in hexadecimal behind `0x`.
fn hex_str(n: u64) -> (r: String)
    ensures
        r@ == hex_text(n as nat),
{
    let mut r = String::new();
    push_hex(&mut r, n);
    assert(r@ =~= hex_text(n as nat));
    r
}

/// The text of a float by its bits.
fn float_str(bits: u32) -> (r: String)
    ensures
        r@ == float_text(bits),
{
    match bits {
        0x0000_0000 | 0x8000_0000 => "0".to_string(),
        0x3F00_0000 => "0.5".to_string(),
        0x3F80_0000 => "1.0".to_string(),
        0x4000_0000 => "2.0".to_string(),
        0x4080_0000 => "4.0".to_string(),
        0xBF00_0000 => "-0.5".to_string(),
        0xBF80_0000 => "-1.0".to_string(),
        0xC000_0000 => "-2.0".to_string(),
        0xC080_0000 => "-4.0".to_string(),
        _ => {
            let mut r = String::new();
            push_hex_padded(&mut r, bits as u64, 8);
            assert(r@ =~= hex_padded(bits as nat, 8));
            r
        },
    }
}

/// A vector operand.
pub fn operand_str(op: &Operand, ra: &RegAlloc) -> (r: String)
    requires
        operand_placed(*op, *ra),
    ensures
        r@ == ot(*op, *ra),
{
    match op {
        Operand::VReg(v) => vreg_str(*v, ra),
        Operand::InlineInt(n) => {
            let mut r = String::new();
            push_int(&mut r, *n);
            assert(r@ =~= int_text(*n as int));
            r
        },
        Operand::InlineFloat(bits) => float_str(*bits),
        Operand::Literal(n) => hex_str(*n as u64),
    }
}

/// A scalar operand.
pub fn soperand_str(op: &SOperand, ra: &RegAlloc) -> (r: String)
    requires
        soperand_placed(*op, *ra),
    ensures
        r@ == sot(*op, *ra),
{
    match op {
        SOperand::SReg(s) => sreg_str(*s, ra),
        SOperand::InlineInt(n) => {
            let mut r = String::new();
            push_int(&mut r, *n);
            assert(r@ =~= int_text(*n as int));
            r
        },
        SOperand::Literal(n) => hex_str(*n as u64),
        SOperand::Vcc => "vcc_lo".to_string(),
    }
}

/// `head` with the offset of a memory access behind it.
fn with_offset(head: String, offset: i32) -> (r: String)
    ensures
        r@ == head@ + offset_text(offset as int),
{
    let mut r = head;
    if offset != 0 {
        r.append(" offset:");
        push_int(&mut r, offset);
    } else {
        r.append("");
    }
    assert(r@ =~= head@ + offset_text(offset as int));
    r
}

/// `head` with a decimal offset behind it, zero or not.
fn with_ds_offset(head: String, offset: u16) -> (r: String)
    ensures
        r@ == head@ + " offset:"@ + dec(offset as nat),
{
    let mut r = head;
    r.append(" offset:");
    push_dec(&mut r, offset as u64);
    r
}

/// `head` with a four-digit hexadecimal offset behind it.
fn with_hex_offset(head: String, offset: u16) -> (r: String)
    ensures
        r@ == head@ + " offset:"@ + hex_padded(offset as nat, 4),
{
    let mut r = head;
    r.append(" offset:");
    push_hex_padded(&mut r, offset as u64, 4);
    r
}

/// The scalar offset of a buffer access.
fn soffset_str(s: SReg, ra: &RegAlloc) -> (r: String)
    requires
        s.0 == SOFFSET_ZERO || ra.has_s(s),
    ensures
        r@ == soffset_text(s, *ra),
{
    if s.0 == SOFFSET_ZERO {
        "0".to_string()
    } else {
        sreg_str(s, ra)
    }
}

// ── Lines ──
/// Parts with commas between them.
pub open spec fn join(parts: Seq<Seq<char>>) -> Seq<char>
    decreases parts.len(),
{
    if parts.len() == 0 {
        Seq::empty()
    } else if parts.len() == 1 {
        parts[0]
    } else {
        join(parts.drop_last()) + ", "@ + parts.last()
    }
}

/// One line of assembly: an indented mnemonic and its operands.
pub open spec fn line(mnemonic: Seq<char>, operands: Seq<Seq<char>>) -> Seq<char> {
    if operands.len() == 0 {
        "  "@ + mnemonic + "\n"@
    } else {
        "  "@ + mnemonic + " "@ + join(operands) + "\n"@
    }
}

/// What strings hold.
pub open spec fn texts(v: Seq<String>) -> Seq<Seq<char>> {
    v.map_values(|s: String| s@)
}

/// Appends one line of assembly.
fn push_line(buf: &mut String, mnemonic: &str, operands: &Vec<String>)
    ensures
        final(buf)@ == old(buf)@ + line(mnemonic@, texts(operands@)),
{
    buf.append("  ");
    buf.append(mnemonic);
    if operands.len() > 0 {
        buf.append(" ");
        let ghost start = buf@;
        let mut i: usize = 0;
        while i < operands.len()
            invariant
                i <= operands.len(),
                buf@ == start + join(texts(operands@).take(i as int)),
            decreases operands.len() - i,
        {
            if i > 0 {
                buf.append(", ");
            }
            buf.append(operands[i].as_str());
            i = i + 1;
            assert(texts(operands@).take(i as int).drop_last() =~= texts(operands@).take(i - 1));
            assert(buf@ =~= start + join(texts(operands@).take(i as int)));
        }
        assert(texts(operands@).take(i as int) =~= texts(operands@));
        buf.append("\n");
    } else {
        buf.append("\n");
    }
    assert(buf@ =~= old(buf)@ + line(mnemonic@, texts(operands@)));
}

/// The mnemonic of an operation that is one line.
pub open spec fn mnemonic_of<S>(op: OpOf<S>) -> Seq<char> {
    match op {
        OpOf::GlobalLoad { width, .. } => match width {
            Width::B16 => "global_load_u16"@,
            Width::B32 => "global_load_b32"@,
            Width::B64 => "global_load_b64"@,
            Width::B128 => "global_load_b128"@,
        },
        OpOf::GlobalStore { width, .. } => match width {
            Width::B16 => "global_store_b16"@,
            Width::B32 => "global_store_b32"@,
            Width::B64 => "global_store_b64"@,
            Width::B128 => "global_store_b128"@,
        },
        OpOf::BufferLoad { width, .. } => match width {
            Width::B16 => "buffer_load_u16"@,
            Width::B32 => "buffer_load_b32"@,
            Width::B64 => "buffer_load_b64"@,
            Width::B128 => "buffer_load_b128"@,
        },
        OpOf::BufferStore { width, .. } => match width {
            Width::B16 => "buffer_store_b16"@,
            Width::B32 => "buffer_store_b32"@,
            Width::B64 => "buffer_store_b64"@,
            Width::B128 => "buffer_store_b128"@,
        },
        OpOf::GlobalAtomicAddF32 { .. } => "global_atomic_add_f32"@,
        OpOf::GlobalAtomicAddU32Rtn { .. } => "global_atomic_add_u32"@,
        OpOf::LdsLoad { width, .. } => match width {
            Width::B16 => "ds_load_u16"@,
            Width::B32 => "ds_load_b32"@,
            Width::B64 => "ds_load_b64"@,
            Width::B128 => "ds_load_b128"@,
        },
        OpOf::LdsStore { width, .. } => match width {
            Width::B16 => "ds_store_b16"@,
            Width::B32 => "ds_store_b32"@,
            Width::B64 => "ds_store_b64"@,
            Width::B128 => "ds_store_b128"@,
        },
        OpOf::DsStoreB16 { .. } => "ds_store_b16"@,
        OpOf::DsStoreB32 { .. } => "ds_store_b32"@,
        OpOf::DsStoreB64 { .. } => "ds_store_b64"@,
        OpOf::DsStoreB128 { .. } => "ds_store_b128"@,
        OpOf::DsLoadB32 { .. } => "ds_load_b32"@,
        OpOf::DsLoadB64 { .. } => "ds_load_b64"@,
        OpOf::DsLoadB128 { .. } => "ds_load_b128"@,
        OpOf::DsLoadU16 { .. } => "ds_load_u16"@,
        OpOf::DsLoadU16D16 { .. } => "ds_load_u16_d16"@,
        OpOf::DsLoadU16D16Hi { .. } => "ds_load_u16_d16_hi"@,
        OpOf::ScalarLoad { width, .. } => match width {
            Width::B64 => "s_load_b64"@,
            Width::B128 => "s_load_b128"@,
            _ => "s_load_b32"@,
        },
        OpOf::VAddF32 { .. } => "v_add_f32"@,
        OpOf::VMulF32 { .. } => "v_mul_f32"@,
        OpOf::VSubF32 { .. } => "v_sub_f32"@,
        OpOf::VMaxF32 { .. } => "v_max_f32"@,
        OpOf::VMinF32 { .. } => "v_min_f32"@,
        OpOf::VMinU32 { .. } => "v_min_u32"@,
        OpOf::VAddU32 { .. } => "v_add_nc_u32"@,
        OpOf::VSubU32 { .. } => "v_sub_u32"@,
        OpOf::VAndB32 { .. } => "v_and_b32"@,
        OpOf::VOrB32 { .. } => "v_or_b32"@,
        OpOf::VXorB32 { .. } => "v_xor_b32"@,
        OpOf::VFmaF32 { .. } => "v_fma_f32"@,
        OpOf::VMov { .. } => "v_mov_b32"@,
        OpOf::VMovFromSgpr { .. } => "v_mov_b32"@,
        OpOf::VMulLoU32 { .. } => "v_mul_lo_u32"@,
        OpOf::VLshlrevB32 { .. } => "v_lshlrev_b32"@,
        OpOf::VLshrrevB32 { .. } => "v_lshrrev_b32"@,
        OpOf::VLshrrevB32Vgpr { .. } => "v_lshrrev_b32"@,
        OpOf::VAndOrB32 { .. } => "v_and_or_b32"@,
        OpOf::VReadfirstlane { .. } => "v_readfirstlane_b32"@,
        OpOf::VCvtF32U32 { .. } => "v_cvt_f32_u32"@,
        OpOf::VCvtU32F32 { .. } => "v_cvt_u32_f32"@,
        OpOf::VPermlanex16B32 { .. } => "v_permlanex16_b32"@,
        OpOf::VRsqF32 { .. } => "v_rsq_f32"@,
        OpOf::VExpF32 { .. } => "v_exp_f32"@,
        OpOf::VSinF32 { .. } => "v_sin_f32"@,
        OpOf::VCosF32 { .. } => "v_cos_f32"@,
        OpOf::VRcpF32 { .. } => "v_rcp_f32"@,
        OpOf::VSqrtF32 { .. } => "v_sqrt_f32"@,
        OpOf::VLog2F32 { .. } => "v_log_f32"@,
        OpOf::VAddCo { .. } => "v_add_co_u32"@,
        OpOf::VAddCoCi { .. } => "v_add_co_ci_u32"@,
        OpOf::VAddCOU32 { .. } => "v_add_co_u32"@,
        OpOf::VAddCCU32 { .. } => "v_add_co_ci_u32"@,
        OpOf::VCmpLtU32 { .. } => "v_cmp_lt_u32"@,
        OpOf::VCmpGeU32 { .. } => "v_cmp_ge_u32"@,
        OpOf::VCmpGtU32 { .. } => "v_cmp_gt_u32"@,
        OpOf::VCmpEqU32 { .. } => "v_cmp_eq_u32"@,
        OpOf::VCmpEqF32 { .. } => "v_cmp_eq_f32"@,
        OpOf::VCmpGtF32 { .. } => "v_cmp_gt_f32"@,
        OpOf::VCmpLtF32 { .. } => "v_cmp_lt_f32"@,
        OpOf::VCmpGeF32 { .. } => "v_cmp_ge_f32"@,
        OpOf::VCmpGtF32Imm0 { .. } => "v_cmp_gt_f32"@,
        OpOf::VCmpGtU32Imm { .. } => "v_cmp_gt_u32"@,
        OpOf::VCmpEqU32Imm { .. } => "v_cmp_eq_u32"@,
        OpOf::VCmpGeI32 { .. } => "v_cmp_ge_i32"@,
        OpOf::VCndmaskB32 { .. } => "v_cndmask_b32"@,
        OpOf::SAddU32 { .. } => "s_add_u32"@,
        OpOf::SAddcU32 { .. } => "s_addc_u32"@,
        OpOf::SSubU32 { .. } => "s_sub_u32"@,
        OpOf::SAndB32 { .. } => "s_and_b32"@,
        OpOf::SMulI32 { .. } => "s_mul_i32"@,
        OpOf::SLshlB32 { .. } => "s_lshl_b32"@,
        OpOf::SLshrB32 { .. } => "s_lshr_b32"@,
        OpOf::SMov { .. } => "s_mov_b32"@,
        OpOf::SCmpLtU32 { .. } => "s_cmp_lt_u32"@,
        OpOf::SCmpGeU32 { .. } => "s_cmp_ge_u32"@,
        OpOf::SCmpEqU32 { .. } => "s_cmp_eq_u32"@,
        OpOf::ClearVcc => "s_mov_b32"@,
        OpOf::SMovToVcc { .. } => "s_mov_b32"@,
        OpOf::Wmma { format, .. } => match format {
            WmmaFormat::BF16_F32 => "v_wmma_f32_16x16x16_bf16"@,
            WmmaFormat::F16_F32 => "v_wmma_f32_16x16x16_f16"@,
            WmmaFormat::BF16_BF16 => "v_wmma_bf16_16x16x16_bf16"@,
        },
        OpOf::DsSwizzle { .. } => "ds_swizzle_b32"@,
        OpOf::SaveExec { .. } => "s_and_saveexec_b32"@,
        OpOf::RestoreExec { .. } => "s_mov_b32"@,
        OpOf::XorExec { .. } => "s_xor_b32"@,
        OpOf::Branch(_) => "s_branch"@,
        OpOf::BranchScc0(_) => "s_cbranch_scc0"@,
        OpOf::BranchScc1(_) => "s_cbranch_scc1"@,
        OpOf::BranchVccz(_) => "s_cbranch_vccz"@,
        OpOf::Barrier => "s_barrier"@,
        OpOf::SBarrier => "s_barrier"@,
        OpOf::Endpgm => "s_endpgm"@,
        OpOf::CaptureTgid { .. } => "s_mov_b32"@,
        _ => ""@,
    }
}

/// The mnemonic of an operation that is one line.
fn mnemonic(op: &Op) -> (r: &'static str)
    ensures
        r@ == mnemonic_of(*op),
{
    match op {
        OpOf::GlobalLoad { width, .. } => match width {
            Width::B16 => "global_load_u16",
            Width::B32 => "global_load_b32",
            Width::B64 => "global_load_b64",
            Width::B128 => "global_load_b128",
        },
        OpOf::GlobalStore { width, .. } => match width {
            Width::B16 => "global_store_b16",
            Width::B32 => "global_store_b32",
            Width::B64 => "global_store_b64",
            Width::B128 => "global_store_b128",
        },
        OpOf::BufferLoad { width, .. } => match width {
            Width::B16 => "buffer_load_u16",
            Width::B32 => "buffer_load_b32",
            Width::B64 => "buffer_load_b64",
            Width::B128 => "buffer_load_b128",
        },
        OpOf::BufferStore { width, .. } => match width {
            Width::B16 => "buffer_store_b16",
            Width::B32 => "buffer_store_b32",
            Width::B64 => "buffer_store_b64",
            Width::B128 => "buffer_store_b128",
        },
        OpOf::GlobalAtomicAddF32 { .. } => "global_atomic_add_f32",
        OpOf::GlobalAtomicAddU32Rtn { .. } => "global_atomic_add_u32",
        OpOf::LdsLoad { width, .. } => match width {
            Width::B16 => "ds_load_u16",
            Width::B32 => "ds_load_b32",
            Width::B64 => "ds_load_b64",
            Width::B128 => "ds_load_b128",
        },
        OpOf::LdsStore { width, .. } => match width {
            Width::B16 => "ds_store_b16",
            Width::B32 => "ds_store_b32",
            Width::B64 => "ds_store_b64",
            Width::B128 => "ds_store_b128",
        },
        OpOf::DsStoreB16 { .. } => "ds_store_b16",
        OpOf::DsStoreB32 { .. } => "ds_store_b32",
        OpOf::DsStoreB64 { .. } => "ds_store_b64",
        OpOf::DsStoreB128 { .. } => "ds_store_b128",
        OpOf::DsLoadB32 { .. } => "ds_load_b32",
        OpOf::DsLoadB64 { .. } => "ds_load_b64",
        OpOf::DsLoadB128 { .. } => "ds_load_b128",
        OpOf::DsLoadU16 { .. } => "ds_load_u16",
        OpOf::DsLoadU16D16 { .. } => "ds_load_u16_d16",
        OpOf::DsLoadU16D16Hi { .. } => "ds_load_u16_d16_hi",
        OpOf::ScalarLoad { width, .. } => match width {
            Width::B64 => "s_load_b64",
            Width::B128 => "s_load_b128",
            _ => "s_load_b32",
        },
        OpOf::VAddF32 { .. } => "v_add_f32",
        OpOf::VMulF32 { .. } => "v_mul_f32",
        OpOf::VSubF32 { .. } => "v_sub_f32",
        OpOf::VMaxF32 { .. } => "v_max_f32",
        OpOf::VMinF32 { .. } => "v_min_f32",
        OpOf::VMinU32 { .. } => "v_min_u32",
        OpOf::VAddU32 { .. } => "v_add_nc_u32",
        OpOf::VSubU32 { .. } => "v_sub_u32",
        OpOf::VAndB32 { .. } => "v_and_b32",
        OpOf::VOrB32 { .. } => "v_or_b32",
        OpOf::VXorB32 { .. } => "v_xor_b32",
        OpOf::VFmaF32 { .. } => "v_fma_f32",
        OpOf::VMov { .. } => "v_mov_b32",
        OpOf::VMovFromSgpr { .. } => "v_mov_b32",
        OpOf::VMulLoU32 { .. } => "v_mul_lo_u32",
        OpOf::VLshlrevB32 { .. } => "v_lshlrev_b32",
        OpOf::VLshrrevB32 { .. } => "v_lshrrev_b32",
        OpOf::VLshrrevB32Vgpr { .. } => "v_lshrrev_b32",
        OpOf::VAndOrB32 { .. } => "v_and_or_b32",
        OpOf::VReadfirstlane { .. } => "v_readfirstlane_b32",
        OpOf::VCvtF32U32 { .. } => "v_cvt_f32_u32",
        OpOf::VCvtU32F32 { .. } => "v_cvt_u32_f32",
        OpOf::VPermlanex16B32 { .. } => "v_permlanex16_b32",
        OpOf::VRsqF32 { .. } => "v_rsq_f32",
        OpOf::VExpF32 { .. } => "v_exp_f32",
        OpOf::VSinF32 { .. } => "v_sin_f32",
        OpOf::VCosF32 { .. } => "v_cos_f32",
        OpOf::VRcpF32 { .. } => "v_rcp_f32",
        OpOf::VSqrtF32 { .. } => "v_sqrt_f32",
        OpOf::VLog2F32 { .. } => "v_log_f32",
        OpOf::VAddCo { .. } => "v_add_co_u32",
        OpOf::VAddCoCi { .. } => "v_add_co_ci_u32",
        OpOf::VAddCOU32 { .. } => "v_add_co_u32",
        OpOf::VAddCCU32 { .. } => "v_add_co_ci_u32",
        OpOf::VCmpLtU32 { .. } => "v_cmp_lt_u32",
        OpOf::VCmpGeU32 { .. } => "v_cmp_ge_u32",
        OpOf::VCmpGtU32 { .. } => "v_cmp_gt_u32",
        OpOf::VCmpEqU32 { .. } => "v_cmp_eq_u32",
        OpOf::VCmpEqF32 { .. } => "v_cmp_eq_f32",
        OpOf::VCmpGtF32 { .. } => "v_cmp_gt_f32",
        OpOf::VCmpLtF32 { .. } => "v_cmp_lt_f32",
        OpOf::VCmpGeF32 { .. } => "v_cmp_ge_f32",
        OpOf::VCmpGtF32Imm0 { .. } => "v_cmp_gt_f32",
        OpOf::VCmpGtU32Imm { .. } => "v_cmp_gt_u32",
        OpOf::VCmpEqU32Imm { .. } => "v_cmp_eq_u32",
        OpOf::VCmpGeI32 { .. } => "v_cmp_ge_i32",
        OpOf::VCndmaskB32 { .. } => "v_cndmask_b32",
        OpOf::SAddU32 { .. } => "s_add_u32",
        OpOf::SAddcU32 { .. } => "s_addc_u32",
        OpOf::SSubU32 { .. } => "s_sub_u32",
        OpOf::SAndB32 { .. } => "s_and_b32",
        OpOf::SMulI32 { .. } => "s_mul_i32",
        OpOf::SLshlB32 { .. } => "s_lshl_b32",
        OpOf::SLshrB32 { .. } => "s_lshr_b32",
        OpOf::SMov { .. } => "s_mov_b32",
        OpOf::SCmpLtU32 { .. } => "s_cmp_lt_u32",
        OpOf::SCmpGeU32 { .. } => "s_cmp_ge_u32",
        OpOf::SCmpEqU32 { .. } => "s_cmp_eq_u32",
        OpOf::ClearVcc => "s_mov_b32",
        OpOf::SMovToVcc { .. } => "s_mov_b32",
        OpOf::Wmma { format, .. } => match format {
            WmmaFormat::BF16_F32 => "v_wmma_f32_16x16x16_bf16",
            WmmaFormat::F16_F32 => "v_wmma_f32_16x16x16_f16",
            WmmaFormat::BF16_BF16 => "v_wmma_bf16_16x16x16_bf16",
        },
        OpOf::DsSwizzle { .. } => "ds_swizzle_b32",
        OpOf::SaveExec { .. } => "s_and_saveexec_b32",
        OpOf::RestoreExec { .. } => "s_mov_b32",
        OpOf::XorExec { .. } => "s_xor_b32",
        OpOf::Branch(_) => "s_branch",
        OpOf::BranchScc0(_) => "s_cbranch_scc0",
        OpOf::BranchScc1(_) => "s_cbranch_scc1",
        OpOf::BranchVccz(_) => "s_cbranch_vccz",
        OpOf::Barrier => "s_barrier",
        OpOf::SBarrier => "s_barrier",
        OpOf::Endpgm => "s_endpgm",
        OpOf::CaptureTgid { .. } => "s_mov_b32",
        _ => "",
    }
}

// ── Operands ──
/// The pair of registers that a scalar load takes its base address from.
pub open spec fn base_text(base: SRegPair, ra: RegAlloc) -> Seq<char> {
    if base.0 >= KERNARG_BASE_MIN {
        range_text("s"@, 0, 2)
    } else {
        srt(SReg(base.0), 2, ra)
    }
}

/// The operands of an operation that is one line.
pub open spec fn operands_of(op: Op, ra: RegAlloc) -> Seq<Seq<char>> {
    match op {
        OpOf::GlobalLoad { dst, addr, width, offset } => seq![
            vrt(dst, width.regs(), ra),
            vrt(addr, 2, ra),
            "off"@ + offset_text(offset as int),
        ],
        OpOf::GlobalStore { addr, src, width, offset } => seq![
            vrt(addr, 2, ra),
            vrt(src, width.regs(), ra),
            "off"@ + offset_text(offset as int),
        ],
        OpOf::BufferLoad { dst, voffset, srsrc, width, offset, soffset } => seq![
            vrt(dst, width.regs(), ra),
            vt(voffset, ra),
            srt(srsrc, 4, ra),
            soffset_text(soffset, ra) + " offen"@ + offset_text(offset as int),
        ],
        OpOf::BufferStore { voffset, src, srsrc, width, offset, soffset } => seq![
            vrt(src, width.regs(), ra),
            vt(voffset, ra),
            srt(srsrc, 4, ra),
            soffset_text(soffset, ra) + " offen"@ + offset_text(offset as int),
        ],
        OpOf::GlobalAtomicAddF32 { addr, src, offset } => seq![
            vrt(addr, 2, ra),
            vt(src, ra),
            "off"@ + offset_text(offset as int),
        ],
        OpOf::GlobalAtomicAddU32Rtn { dst, addr, src } => seq![
            vt(dst, ra),
            vrt(addr, 2, ra),
            vt(src, ra),
            "off glc"@,
        ],
        OpOf::LdsLoad { dst, addr, width, offset } => seq![
            vrt(dst, width.regs(), ra),
            vt(addr, ra) + offset_text(offset as int),
        ],
        OpOf::LdsStore { addr, src, width, offset } => seq![
            vt(addr, ra),
            vrt(src, width.regs(), ra) + offset_text(offset as int),
        ],
        OpOf::DsStoreB16 { vaddr, src, offset }
        | OpOf::DsStoreB32 { vaddr, src, offset } => seq![
            vt(vaddr, ra),
            vt(src, ra) + " offset:"@ + dec(offset as nat),
        ],
        OpOf::DsStoreB64 { vaddr, src, offset } => seq![
            vt(vaddr, ra),
            vrt(src, 2, ra) + " offset:"@ + dec(offset as nat),
        ],
        OpOf::DsStoreB128 { vaddr, src, offset } => seq![
            vt(vaddr, ra),
            vrt(src, 4, ra) + " offset:"@ + dec(offset as nat),
        ],
        OpOf::DsLoadB32 { dst, vaddr, offset }
        | OpOf::DsLoadU16 { dst, vaddr, offset }
        | OpOf::DsLoadU16D16 { dst, vaddr, offset }
        | OpOf::DsLoadU16D16Hi { dst, vaddr, offset } => seq![
            vt(dst, ra),
            vt(vaddr, ra) + " offset:"@ + dec(offset as nat),
        ],
        OpOf::DsLoadB64 { dst, vaddr, offset } => seq![
            vrt(dst, 2, ra),
            vt(vaddr, ra) + " offset:"@ + dec(offset as nat),
        ],
        OpOf::DsLoadB128 { dst, vaddr, offset } => seq![
            vrt(dst, 4, ra),
            vt(vaddr, ra) + " offset:"@ + dec(offset as nat),
        ],
        OpOf::ScalarLoad { dst, base, offset, width } => seq![
            srt(dst, width.regs(), ra),
            base_text(base, ra),
            hex_text(offset as nat),
        ],
        OpOf::VAddF32 { dst, src0, src1 }
        | OpOf::VMulF32 { dst, src0, src1 }
        | OpOf::VSubF32 { dst, src0, src1 }
        | OpOf::VMaxF32 { dst, src0, src1 }
        | OpOf::VMinF32 { dst, src0, src1 }
        | OpOf::VMinU32 { dst, src0, src1 }
        | OpOf::VAddU32 { dst, src0, src1 }
        | OpOf::VSubU32 { dst, src0, src1 }
        | OpOf::VAndB32 { dst, src0, src1 }
        | OpOf::VOrB32 { dst, src0, src1 }
        | OpOf::VXorB32 { dst, src0, src1 } => seq![
            vt(dst, ra),
            ot(src0, ra),
            ot(src1, ra),
        ],
        OpOf::VFmaF32 { dst, src0, src1, src2 } => seq![
            vt(dst, ra),
            ot(src0, ra),
            ot(src1, ra),
            ot(src2, ra),
        ],
        OpOf::VMov { dst, src } => seq![
            vt(dst, ra),
            ot(src, ra),
        ],
        OpOf::VMovFromSgpr { dst, src } => seq![
            vt(dst, ra),
            st(src, ra),
        ],
        OpOf::VMulLoU32 { dst, src0, src1 } => seq![
            vt(dst, ra),
            vt(src0, ra),
            vt(src1, ra),
        ],
        OpOf::VLshlrevB32 { dst, shift, src }
        | OpOf::VLshrrevB32 { dst, shift, src } => seq![
            vt(dst, ra),
            dec(shift as nat),
            vt(src, ra),
        ],
        OpOf::VLshrrevB32Vgpr { dst, shift, src } => seq![
            vt(dst, ra),
            vt(shift, ra),
            vt(src, ra),
        ],
        OpOf::VAndOrB32 { dst, src0, literal, src2 } => seq![
            vt(dst, ra),
            vt(src0, ra),
            hex_text(literal as nat),
            vt(src2, ra),
        ],
        OpOf::VReadfirstlane { dst, src } => seq![
            st(dst, ra),
            vt(src, ra),
        ],
        OpOf::VCvtF32U32 { dst, src }
        | OpOf::VCvtU32F32 { dst, src }
        | OpOf::VRsqF32 { dst, src }
        | OpOf::VExpF32 { dst, src }
        | OpOf::VSinF32 { dst, src }
        | OpOf::VCosF32 { dst, src }
        | OpOf::VRcpF32 { dst, src }
        | OpOf::VSqrtF32 { dst, src }
        | OpOf::VLog2F32 { dst, src } => seq![
            vt(dst, ra),
            vt(src, ra),
        ],
        OpOf::VPermlanex16B32 { dst, src } => seq![
            vt(dst, ra),
            vt(src, ra),
            "s0"@,
            "s0"@,
        ],
        OpOf::VAddCo { dst, src0, src1 }
        | OpOf::VAddCOU32 { dst, src0, src1 } => seq![
            vt(dst, ra),
            "vcc_lo"@,
            vt(src0, ra),
            vt(src1, ra),
        ],
        OpOf::VAddCoCi { dst, src }
        | OpOf::VAddCCU32 { dst, src } => seq![
            vt(dst, ra),
            "vcc_lo"@,
            vt(src, ra),
            "0"@,
            "vcc_lo"@,
        ],
        OpOf::VCmpLtU32 { src0, src1 }
        | OpOf::VCmpGeU32 { src0, src1 }
        | OpOf::VCmpGtU32 { src0, src1 }
        | OpOf::VCmpEqU32 { src0, src1 }
        | OpOf::VCmpEqF32 { src0, src1 }
        | OpOf::VCmpGtF32 { src0, src1 }
        | OpOf::VCmpLtF32 { src0, src1 }
        | OpOf::VCmpGeF32 { src0, src1 } => seq![
            "vcc_lo"@,
            ot(src0, ra),
            ot(src1, ra),
        ],
        OpOf::VCmpGtF32Imm0 { src } => seq![
            "vcc_lo"@,
            vt(src, ra),
            "0"@,
        ],
        OpOf::VCmpGtU32Imm { src, imm }
        | OpOf::VCmpEqU32Imm { src, imm } => seq![
            "vcc_lo"@,
            vt(src, ra),
            dec(imm as nat),
        ],
        OpOf::VCmpGeI32 { src0, src1 } => seq![
            "vcc_lo"@,
            vt(src0, ra),
            vt(src1, ra),
        ],
        OpOf::VCndmaskB32 { dst, src_false, src_true } => seq![
            vt(dst, ra),
            ot(src_false, ra),
            ot(src_true, ra),
            "vcc_lo"@,
        ],
        OpOf::SAddU32 { dst, src0, src1 }
        | OpOf::SAddcU32 { dst, src0, src1 }
        | OpOf::SSubU32 { dst, src0, src1 }
        | OpOf::SAndB32 { dst, src0, src1 } => seq![
            st(dst, ra),
            st(src0, ra),
            sot(src1, ra),
        ],
        OpOf::SMulI32 { dst, src0, src1 } => seq![
            st(dst, ra),
            st(src0, ra),
            st(src1, ra),
        ],
        OpOf::SLshlB32 { dst, src, shift }
        | OpOf::SLshrB32 { dst, src, shift } => seq![
            st(dst, ra),
            st(src, ra),
            dec(shift as nat),
        ],
        OpOf::SMov { dst, src } => seq![
            st(dst, ra),
            sot(src, ra),
        ],
        OpOf::SCmpLtU32 { src0, src1 }
        | OpOf::SCmpGeU32 { src0, src1 } => seq![
            st(src0, ra),
            st(src1, ra),
        ],
        OpOf::SCmpEqU32 { src0, src1 } => seq![
            st(src0, ra),
            sot(src1, ra),
        ],
        OpOf::ClearVcc => seq![
            "vcc_lo"@,
            "0"@,
        ],
        OpOf::SMovToVcc { src } => seq![
            "vcc_lo"@,
            st(src, ra),
        ],
        OpOf::Wmma { dst, a, b, c, .. } => seq![
            vrt(dst, 8, ra),
            vrt(a, 8, ra),
            vrt(b, 8, ra),
            vrt(c, 8, ra),
        ],
        OpOf::DsSwizzle { dst, src, offset } => seq![
            vt(dst, ra),
            vt(src, ra) + " offset:"@ + hex_padded(offset as nat, 4),
        ],
        OpOf::SaveExec { dst } => seq![
            st(dst, ra),
            "vcc_lo"@,
        ],
        OpOf::RestoreExec { src } => seq![
            "exec_lo"@,
            st(src, ra),
        ],
        OpOf::XorExec { saved } => seq![
            "exec_lo"@,
            "exec_lo"@,
            st(saved, ra),
        ],
        OpOf::Branch(target)
        | OpOf::BranchScc0(target)
        | OpOf::BranchScc1(target)
        | OpOf::BranchVccz(target) => seq![
            ".L"@ + target@,
        ],
        OpOf::CaptureTgid { dst, axis } => seq![
            st(dst, ra),
            "s"@ + dec((2 + axis) as nat) + "  ; capture TGID."@ + axis_text(axis),
        ],
        _ => Seq::empty(),
    }
}

/// A range of vector registers.
fn vrange_str(v: VReg, n: u32, ra: &RegAlloc) -> (r: String)
    requires
        vrange_placed(v, n as nat, *ra),
        n > 0,
    ensures
        r@ == vrt(v, n as nat, *ra),
{
    assert(vregs(v, n as nat)[0] == v);
    vreg_range_str(ra.phys_v(v), n)
}

/// A range of scalar registers.
fn srange_str(s: SReg, n: u32, ra: &RegAlloc) -> (r: String)
    requires
        srange_placed(s, n as nat, *ra),
        n > 0,
    ensures
        r@ == srt(s, n as nat, *ra),
{
    assert(sregs(s, n as nat)[0] == s);
    sreg_range_str(ra.phys_s(s), n)
}

/// `head` with the offset of a memory access behind it.
fn with_offset16(head: String, offset: u16) -> (r: String)
    ensures
        r@ == head@ + offset_text(offset as int),
{
    with_offset(head, offset as i32)
}

/// The scalar and the constant offset of a buffer access.
fn buffer_offset_str(soffset: SReg, offset: u16, ra: &RegAlloc) -> (r: String)
    requires
        soffset.0 == SOFFSET_ZERO || ra.has_s(soffset),
    ensures
        r@ == soffset_text(soffset, *ra) + " offen"@ + offset_text(offset as int),
{
    let mut r = soffset_str(soffset, ra);
    r.append(" offen");
    with_offset16(r, offset)
}

/// The pair of registers that a scalar load takes its base address from.
fn base_str(base: SRegPair, ra: &RegAlloc) -> (r: String)
    requires
        base.0 >= KERNARG_BASE_MIN || srange_placed(SReg(base.0), 2, *ra),
    ensures
        r@ == base_text(base, *ra),
{
    if base.0 >= KERNARG_BASE_MIN {
        sreg_range_str(0, 2)
    } else {
        srange_str(SReg(base.0), 2, ra)
    }
}

/// A number in hexadecimal behind `0x`.
fn hex_u32(n: u32) -> (r: String)
    ensures
        r@ == hex_text(n as nat),
{
    hex_str(n as u64)
}

/// A decimal number.
fn dec_num_u8(n: u8) -> (r: String)
    ensures
        r@ == dec(n as nat),
{
    dec_str(n as u64)
}

/// A decimal number.
fn dec_num_u32(n: u32) -> (r: String)
    ensures
        r@ == dec(n as nat),
{
    dec_str(n as u64)
}

/// The label that a branch names.
fn target_str(target: &String) -> (r: String)
    ensures
        r@ == ".L"@ + target@,
{
    let mut r = String::new();
    r.append(".L");
    r.append(target.as_str());
    assert(r@ =~= ".L"@ + target@);
    r
}

/// The hardware register of a workgroup number, with a remark.
fn tgid_str(axis: u8) -> (r: String)
    ensures
        r@ == "s"@ + dec((2 + axis) as nat) + "  ; capture TGID."@ + axis_text(axis),
{
    let mut r = String::new();
    r.append("s");
    push_dec(&mut r, 2 + axis as u64);
    r.append("  ; capture TGID.");
    if axis == 0 {
        r.append("x");
    } else if axis == 1 {
        r.append("y");
    } else {
        r.append("z");
    }
    assert(r@ =~= "s"@ + dec((2 + axis) as nat) + "  ; capture TGID."@ + axis_text(axis));
    r
}

/// One text in a row.
fn parts1(a: String) -> (r: Vec<String>)
    ensures
        texts(r@) == seq![a@],
{
    let mut r: Vec<String> = Vec::new();
    r.push(a);
    assert(texts(r@) =~= seq![a@]);
    r
}

/// Two texts in a row.
fn parts2(a: String, b: String) -> (r: Vec<String>)
    ensures
        texts(r@) == seq![a@, b@],
{
    let mut r: Vec<String> = Vec::new();
    r.push(a);
    r.push(b);
    assert(texts(r@) =~= seq![a@, b@]);
    r
}

/// Three texts in a row.
fn parts3(a: String, b: String, c: String) -> (r: Vec<String>)
    ensures
        texts(r@) == seq![a@, b@, c@],
{
    let mut r: Vec<String> = Vec::new();
    r.push(a);
    r.push(b);
    r.push(c);
    assert(texts(r@) =~= seq![a@, b@, c@]);
    r
}

/// Four texts in a row.
fn parts4(a: String, b: String, c: String, d: String) -> (r: Vec<String>)
    ensures
        texts(r@) == seq![a@, b@, c@, d@],
{
    let mut r: Vec<String> = Vec::new();
    r.push(a);
    r.push(b);
    r.push(c);
    r.push(d);
    assert(texts(r@) =~= seq![a@, b@, c@, d@]);
    r
}

/// Five texts in a row.
fn parts5(a: String, b: String, c: String, d: String, e: String) -> (r: Vec<String>)
    ensures
        texts(r@) == seq![a@, b@, c@, d@, e@],
{
    let mut r: Vec<String> = Vec::new();
    r.push(a);
    r.push(b);
    r.push(c);
    r.push(d);
    r.push(e);
    assert(texts(r@) =~= seq![a@, b@, c@, d@, e@]);
    r
}

/// The operands of an operation that is one line.
fn operands(op: &Op, ra: &RegAlloc) -> (r: Vec<String>)
    requires
        encodable(*op, *ra),
    ensures
        texts(r@) == operands_of(*op, *ra),
{
    assert(texts(Seq::<String>::empty()) =~= Seq::empty());
    match op {
        OpOf::GlobalLoad { dst, addr, width, offset } => parts3(
            vrange_str(*dst, width.vreg_count(), ra),
            vrange_str(*addr, 2, ra),
            with_offset("off".to_string(), *offset),
        ),
        OpOf::GlobalStore { addr, src, width, offset } => parts3(
            vrange_str(*addr, 2, ra),
            vrange_str(*src, width.vreg_count(), ra),
            with_offset("off".to_string(), *offset),
        ),
        OpOf::BufferLoad { dst, voffset, srsrc, width, offset, soffset } => parts4(
            vrange_str(*dst, width.vreg_count(), ra),
            vreg_str(*voffset, ra),
            srange_str(*srsrc, 4, ra),
            buffer_offset_str(*soffset, *offset, ra),
        ),
        OpOf::BufferStore { voffset, src, srsrc, width, offset, soffset } => parts4(
            vrange_str(*src, width.vreg_count(), ra),
            vreg_str(*voffset, ra),
            srange_str(*srsrc, 4, ra),
            buffer_offset_str(*soffset, *offset, ra),
        ),
        OpOf::GlobalAtomicAddF32 { addr, src, offset } => parts3(
            vrange_str(*addr, 2, ra),
            vreg_str(*src, ra),
            with_offset("off".to_string(), *offset),
        ),
        OpOf::GlobalAtomicAddU32Rtn { dst, addr, src } => parts4(
            vreg_str(*dst, ra),
            vrange_str(*addr, 2, ra),
            vreg_str(*src, ra),
            "off glc".to_string(),
        ),
        OpOf::LdsLoad { dst, addr, width, offset } => parts2(
            vrange_str(*dst, width.vreg_count(), ra),
            with_offset16(vreg_str(*addr, ra), *offset),
        ),
        OpOf::LdsStore { addr, src, width, offset } => parts2(
            vreg_str(*addr, ra),
            with_offset16(vrange_str(*src, width.vreg_count(), ra), *offset),
        ),
        OpOf::DsStoreB16 { vaddr, src, offset }
        | OpOf::DsStoreB32 { vaddr, src, offset } => parts2(
            vreg_str(*vaddr, ra),
            with_ds_offset(vreg_str(*src, ra), *offset),
        ),
        OpOf::DsStoreB64 { vaddr, src, offset } => parts2(
            vreg_str(*vaddr, ra),
            with_ds_offset(vrange_str(*src, 2, ra), *offset),
        ),
        OpOf::DsStoreB128 { vaddr, src, offset } => parts2(
            vreg_str(*vaddr, ra),
            with_ds_offset(vrange_str(*src, 4, ra), *offset),
        ),
        OpOf::DsLoadB32 { dst, vaddr, offset }
        | OpOf::DsLoadU16 { dst, vaddr, offset }
        | OpOf::DsLoadU16D16 { dst, vaddr, offset }
        | OpOf::DsLoadU16D16Hi { dst, vaddr, offset } => parts2(
            vreg_str(*dst, ra),
            with_ds_offset(vreg_str(*vaddr, ra), *offset),
        ),
        OpOf::DsLoadB64 { dst, vaddr, offset } => parts2(
            vrange_str(*dst, 2, ra),
            with_ds_offset(vreg_str(*vaddr, ra), *offset),
        ),
        OpOf::DsLoadB128 { dst, vaddr, offset } => parts2(
            vrange_str(*dst, 4, ra),
            with_ds_offset(vreg_str(*vaddr, ra), *offset),
        ),
        OpOf::ScalarLoad { dst, base, offset, width } => parts3(
            srange_str(*dst, width.vreg_count(), ra),
            base_str(*base, ra),
            hex_u32(*offset),
        ),
        OpOf::VAddF32 { dst, src0, src1 }
        | OpOf::VMulF32 { dst, src0, src1 }
        | OpOf::VSubF32 { dst, src0, src1 }
        | OpOf::VMaxF32 { dst, src0, src1 }
        | OpOf::VMinF32 { dst, src0, src1 }
        | OpOf::VMinU32 { dst, src0, src1 }
        | OpOf::VAddU32 { dst, src0, src1 }
        | OpOf::VSubU32 { dst, src0, src1 }
        | OpOf::VAndB32 { dst, src0, src1 }
        | OpOf::VOrB32 { dst, src0, src1 }
        | OpOf::VXorB32 { dst, src0, src1 } => parts3(
            vreg_str(*dst, ra),
            operand_str(src0, ra),
            operand_str(src1, ra),
        ),
        OpOf::VFmaF32 { dst, src0, src1, src2 } => parts4(
            vreg_str(*dst, ra),
            operand_str(src0, ra),
            operand_str(src1, ra),
            operand_str(src2, ra),
        ),
        OpOf::VMov { dst, src } => parts2(
            vreg_str(*dst, ra),
            operand_str(src, ra),
        ),
        OpOf::VMovFromSgpr { dst, src } => parts2(
            vreg_str(*dst, ra),
            sreg_str(*src, ra),
        ),
        OpOf::VMulLoU32 { dst, src0, src1 } => parts3(
            vreg_str(*dst, ra),
            vreg_str(*src0, ra),
            vreg_str(*src1, ra),
        ),
        OpOf::VLshlrevB32 { dst, shift, src }
        | OpOf::VLshrrevB32 { dst, shift, src } => parts3(
            vreg_str(*dst, ra),
            dec_num_u8(*shift),
            vreg_str(*src, ra),
        ),
        OpOf::VLshrrevB32Vgpr { dst, shift, src } => parts3(
            vreg_str(*dst, ra),
            vreg_str(*shift, ra),
            vreg_str(*src, ra),
        ),
        OpOf::VAndOrB32 { dst, src0, literal, src2 } => parts4(
            vreg_str(*dst, ra),
            vreg_str(*src0, ra),
            hex_u32(*literal),
            vreg_str(*src2, ra),
        ),
        OpOf::VReadfirstlane { dst, src } => parts2(
            sreg_str(*dst, ra),
            vreg_str(*src, ra),
        ),
        OpOf::VCvtF32U32 { dst, src }
        | OpOf::VCvtU32F32 { dst, src }
        | OpOf::VRsqF32 { dst, src }
        | OpOf::VExpF32 { dst, src }
        | OpOf::VSinF32 { dst, src }
        | OpOf::VCosF32 { dst, src }
        | OpOf::VRcpF32 { dst, src }
        | OpOf::VSqrtF32 { dst, src }
        | OpOf::VLog2F32 { dst, src } => parts2(
            vreg_str(*dst, ra),
            vreg_str(*src, ra),
        ),
        OpOf::VPermlanex16B32 { dst, src } => parts4(
            vreg_str(*dst, ra),
            vreg_str(*src, ra),
            "s0".to_string(),
            "s0".to_string(),
        ),
        OpOf::VAddCo { dst, src0, src1 }
        | OpOf::VAddCOU32 { dst, src0, src1 } => parts4(
            vreg_str(*dst, ra),
            "vcc_lo".to_string(),
            vreg_str(*src0, ra),
            vreg_str(*src1, ra),
        ),
        OpOf::VAddCoCi { dst, src }
        | OpOf::VAddCCU32 { dst, src } => parts5(
            vreg_str(*dst, ra),
            "vcc_lo".to_string(),
            vreg_str(*src, ra),
            "0".to_string(),
            "vcc_lo".to_string(),
        ),
        OpOf::VCmpLtU32 { src0, src1 }
        | OpOf::VCmpGeU32 { src0, src1 }
        | OpOf::VCmpGtU32 { src0, src1 }
        | OpOf::VCmpEqU32 { src0, src1 }
        | OpOf::VCmpEqF32 { src0, src1 }
        | OpOf::VCmpGtF32 { src0, src1 }
        | OpOf::VCmpLtF32 { src0, src1 }
        | OpOf::VCmpGeF32 { src0, src1 } => parts3(
            "vcc_lo".to_string(),
            operand_str(src0, ra),
            operand_str(src1, ra),
        ),
        OpOf::VCmpGtF32Imm0 { src } => parts3(
            "vcc_lo".to_string(),
            vreg_str(*src, ra),
            "0".to_string(),
        ),
        OpOf::VCmpGtU32Imm { src, imm }
        | OpOf::VCmpEqU32Imm { src, imm } => parts3(
            "vcc_lo".to_string(),
            vreg_str(*src, ra),
            dec_num_u32(*imm),
        ),
        OpOf::VCmpGeI32 { src0, src1 } => parts3(
            "vcc_lo".to_string(),
            vreg_str(*src0, ra),
            vreg_str(*src1, ra),
        ),
        OpOf::VCndmaskB32 { dst, src_false, src_true } => parts4(
            vreg_str(*dst, ra),
            operand_str(src_false, ra),
            operand_str(src_true, ra),
            "vcc_lo".to_string(),
        ),
        OpOf::SAddU32 { dst, src0, src1 }
        | OpOf::SAddcU32 { dst, src0, src1 }
        | OpOf::SSubU32 { dst, src0, src1 }
        | OpOf::SAndB32 { dst, src0, src1 } => parts3(
            sreg_str(*dst, ra),
            sreg_str(*src0, ra),
            soperand_str(src1, ra),
        ),
        OpOf::SMulI32 { dst, src0, src1 } => parts3(
            sreg_str(*dst, ra),
            sreg_str(*src0, ra),
            sreg_str(*src1, ra),
        ),
        OpOf::SLshlB32 { dst, src, shift }
        | OpOf::SLshrB32 { dst, src, shift } => parts3(
            sreg_str(*dst, ra),
            sreg_str(*src, ra),
            dec_num_u8(*shift),
        ),
        OpOf::SMov { dst, src } => parts2(
            sreg_str(*dst, ra),
            soperand_str(src, ra),
        ),
        OpOf::SCmpLtU32 { src0, src1 }
        | OpOf::SCmpGeU32 { src0, src1 } => parts2(
            sreg_str(*src0, ra),
            sreg_str(*src1, ra),
        ),
        OpOf::SCmpEqU32 { src0, src1 } => parts2(
            sreg_str(*src0, ra),
            soperand_str(src1, ra),
        ),
        OpOf::ClearVcc => parts2(
            "vcc_lo".to_string(),
            "0".to_string(),
        ),
        OpOf::SMovToVcc { src } => parts2(
            "vcc_lo".to_string(),
            sreg_str(*src, ra),
        ),
        OpOf::Wmma { dst, a, b, c, .. } => parts4(
            vrange_str(*dst, 8, ra),
            vrange_str(*a, 8, ra),
            vrange_str(*b, 8, ra),
            vrange_str(*c, 8, ra),
        ),
        OpOf::DsSwizzle { dst, src, offset } => parts2(
            vreg_str(*dst, ra),
            with_hex_offset(vreg_str(*src, ra), *offset),
        ),
        OpOf::SaveExec { dst } => parts2(
            sreg_str(*dst, ra),
            "vcc_lo".to_string(),
        ),
        OpOf::RestoreExec { src } => parts2(
            "exec_lo".to_string(),
            sreg_str(*src, ra),
        ),
        OpOf::XorExec { saved } => parts3(
            "exec_lo".to_string(),
            "exec_lo".to_string(),
            sreg_str(*saved, ra),
        ),
        OpOf::Branch(target)
        | OpOf::BranchScc0(target)
        | OpOf::BranchScc1(target)
        | OpOf::BranchVccz(target) => parts1(
            target_str(target),
        ),
        OpOf::CaptureTgid { dst, axis } => parts2(
            sreg_str(*dst, ra),
            tgid_str(*axis),
        ),
        _ => Vec::new(),
    }
}

// ── Operations that are several lines ──
/// One step of a wave reduction: bring over the value of another lane, wait for it,
/// combine.
pub open spec fn reduce_step(
    combine: Seq<char>,
    val: VReg,
    tmp: VReg,
    offset: nat,
    remark: Seq<char>,
    ra: RegAlloc,
) -> Seq<char> {
    line(
        "ds_swizzle_b32"@,
        seq![
            vt(tmp, ra),
            vt(val, ra) + " offset:"@ + hex_padded(offset, 4) + "  ; "@ + remark,
        ],
    ) + line("s_waitcnt"@, seq!["lgkmcnt(0)"@]) + line(
        combine,
        seq![vt(val, ra), vt(val, ra), vt(tmp, ra)],
    )
}

/// A wave reduction: the five steps of a butterfly over 32 lanes.
pub open spec fn reduce_text(combine: Seq<char>, val: VReg, tmp: VReg, ra: RegAlloc) -> Seq<char> {
    reduce_step(combine, val, tmp, 0x401F, "xor16"@, ra) + reduce_step(
        combine,
        val,
        tmp,
        0x201F,
        "xor8"@,
        ra,
    ) + reduce_step(combine, val, tmp, 0x101F, "xor4"@, ra) + reduce_step(
        combine,
        val,
        tmp,
        0x081F,
        "xor2"@,
        ra,
    ) + reduce_step(combine, val, tmp, 0x041F, "xor1"@, ra)
}

/// A scalar load of one word. The base has to be an even register and the next one; any
/// other pair is copied to `s[4:5]` first.
pub open spec fn smem_load_text(
    dst: SReg,
    base_lo: SReg,
    base_hi: SReg,
    offset: u32,
    ra: RegAlloc,
) -> Seq<char> {
    if ra.s(base_lo) % 2 == 0 && ra.s(base_hi) == ra.s(base_lo) + 1 {
        line(
            "s_load_dword"@,
            seq![st(dst, ra), range_text("s"@, ra.s(base_lo) as nat, 2), dec(offset as nat)],
        )
    } else {
        line("s_mov_b32"@, seq!["s4"@, st(base_lo, ra)]) + line(
            "s_mov_b32"@,
            seq!["s5"@, st(base_hi, ra)],
        ) + line("s_load_dword"@, seq![st(dst, ra), range_text("s"@, 4, 2), dec(offset as nat)])
    }
}

/// The text of an operation other than a wait.
pub open spec fn op_text(op: Op, ra: RegAlloc) -> Seq<char> {
    match op {
        OpOf::Label(name) => ".L"@ + name@ + ":\n"@,
        OpOf::RawAsm(text) => "  "@ + text@ + "\n"@,
        OpOf::BufferWbl2 { .. } => "  ; buffer_wbl2: TODO — needs SGPR descriptor setup\n"@,
        OpOf::ComputeGlobalIdX { dst, wg_size } => line(
            "s_mul_i32"@,
            seq!["s2"@, "s2"@, dec(wg_size as nat) + "  ; TGID.x * WG_SIZE"@],
        ) + line(
            "v_add_nc_u32"@,
            seq![vt(dst, ra), "s2"@, "v0  ; global_id = wg_offset + tid"@],
        ),
        OpOf::WaveReduceAddF32 { val, tmp } => reduce_text("v_add_f32"@, val, tmp, ra),
        OpOf::WaveReduceMaxF32 { val, tmp } => reduce_text("v_max_f32"@, val, tmp, ra),
        OpOf::WaveReduceMinF32 { val, tmp } => reduce_text("v_min_f32"@, val, tmp, ra),
        OpOf::CvtPkBf16F32 { dst, src0, src1 } => line(
            "v_lshrrev_b32"@,
            seq![vt(dst, ra), "16"@, vt(src0, ra)],
        ) + line("v_and_or_b32"@, seq![vt(dst, ra), vt(src1, ra), "0xffff0000"@, vt(dst, ra)]),
        OpOf::SMemLoadDword { dst, base_lo, base_hi, offset } => smem_load_text(
            dst,
            base_lo,
            base_hi,
            offset,
            ra,
        ),
        OpOf::ReadShaderCycles { dst } => line(
            "s_getreg_b32"@,
            seq!["s2"@, "hwreg(HW_REG_SHADER_CYCLES)  ; GPU cycle counter"@],
        ) + line("v_mov_b32"@, seq![vt(dst, ra), "s2"@]),
        _ => line(mnemonic_of(op), operands_of(op, ra)),
    }
}

/// Appends one step of a wave reduction.
fn push_reduce_step(
    buf: &mut String,
    combine: &str,
    val: VReg,
    tmp: VReg,
    offset: u16,
    remark: &str,
    ra: &RegAlloc,
)
    requires
        ra.has_v(val),
        ra.has_v(tmp),
    ensures
        final(buf)@ == old(buf)@ + reduce_step(combine@, val, tmp, offset as nat, remark@, *ra),
{
    let mut source = with_hex_offset(vreg_str(val, ra), offset);
    source.append("  ; ");
    source.append(remark);
    push_line(buf, "ds_swizzle_b32", &parts2(vreg_str(tmp, ra), source));
    push_line(buf, "s_waitcnt", &parts1("lgkmcnt(0)".to_string()));
    push_line(buf, combine, &parts3(vreg_str(val, ra), vreg_str(val, ra), vreg_str(tmp, ra)));
    assert(buf@ =~= old(buf)@ + reduce_step(combine@, val, tmp, offset as nat, remark@, *ra));
}

/// Appends a wave reduction.
fn push_reduce(buf: &mut String, combine: &str, val: VReg, tmp: VReg, ra: &RegAlloc)
    requires
        ra.has_v(val),
        ra.has_v(tmp),
    ensures
        final(buf)@ == old(buf)@ + reduce_text(combine@, val, tmp, *ra),
{
    push_reduce_step(buf, combine, val, tmp, 0x401F, "xor16", ra);
    push_reduce_step(buf, combine, val, tmp, 0x201F, "xor8", ra);
    push_reduce_step(buf, combine, val, tmp, 0x101F, "xor4", ra);
    push_reduce_step(buf, combine, val, tmp, 0x081F, "xor2", ra);
    push_reduce_step(buf, combine, val, tmp, 0x041F, "xor1", ra);
    assert(buf@ =~= old(buf)@ + reduce_text(combine@, val, tmp, *ra));
}

/// Appends a scalar load of one word.
fn push_smem_load(
    buf: &mut String,
    dst: SReg,
    base_lo: SReg,
    base_hi: SReg,
    offset: u32,
    ra: &RegAlloc,
)
    requires
        ra.has_s(dst),
        ra.has_s(base_lo),
        ra.has_s(base_hi),
    ensures
        final(buf)@ == old(buf)@ + smem_load_text(dst, base_lo, base_hi, offset, *ra),
{
    let lo: u8 = ra.phys_s(base_lo);
    let hi: u8 = ra.phys_s(base_hi);
    let aligned: bool = lo % 2 == 0 && hi as u32 == lo as u32 + 1;
    let base: u8 = if aligned {
        lo
    } else {
        push_line(buf, "s_mov_b32", &parts2("s4".to_string(), sreg_str(base_lo, ra)));
        push_line(buf, "s_mov_b32", &parts2("s5".to_string(), sreg_str(base_hi, ra)));
        4
    };
    push_line(
        buf,
        "s_load_dword",
        &parts3(sreg_str(dst, ra), sreg_range_str(base, 2), dec_num_u32(offset)),
    );
    assert(buf@ =~= old(buf)@ + smem_load_text(dst, base_lo, base_hi, offset, *ra));
}

/// Appends the text of an operation other than a wait.
fn push_op(buf: &mut String, op: &Op, ra: &RegAlloc)
    requires
        encodable(*op, *ra),
    ensures
        final(buf)@ == old(buf)@ + op_text(*op, *ra),
{
    match op {
        OpOf::Label(name) => {
            buf.append(".L");
            buf.append(name.as_str());
            buf.append(":\n");
        },
        OpOf::RawAsm(text) => {
            buf.append("  ");
            buf.append(text.as_str());
            buf.append("\n");
        },
        OpOf::BufferWbl2 { .. } => {
            buf.append("  ; buffer_wbl2: TODO — needs SGPR descriptor setup\n");
        },
        OpOf::ComputeGlobalIdX { dst, wg_size } => {
            let mut scale = dec_num_u32(*wg_size);
            scale.append("  ; TGID.x * WG_SIZE");
            push_line(buf, "s_mul_i32", &parts3("s2".to_string(), "s2".to_string(), scale));
            push_line(
                buf,
                "v_add_nc_u32",
                &parts3(
                    vreg_str(*dst, ra),
                    "s2".to_string(),
                    "v0  ; global_id = wg_offset + tid".to_string(),
                ),
            );
        },
        OpOf::WaveReduceAddF32 { val, tmp } => {
            push_reduce(buf, "v_add_f32", *val, *tmp, ra);
        },
        OpOf::WaveReduceMaxF32 { val, tmp } => {
            push_reduce(buf, "v_max_f32", *val, *tmp, ra);
        },
        OpOf::WaveReduceMinF32 { val, tmp } => {
            push_reduce(buf, "v_min_f32", *val, *tmp, ra);
        },
        OpOf::CvtPkBf16F32 { dst, src0, src1 } => {
            push_line(
                buf,
                "v_lshrrev_b32",
                &parts3(vreg_str(*dst, ra), "16".to_string(), vreg_str(*src0, ra)),
            );
            push_line(
                buf,
                "v_and_or_b32",
                &parts4(
                    vreg_str(*dst, ra),
                    vreg_str(*src1, ra),
                    "0xffff0000".to_string(),
                    vreg_str(*dst, ra),
                ),
            );
        },
        OpOf::SMemLoadDword { dst, base_lo, base_hi, offset } => {
            push_smem_load(buf, *dst, *base_lo, *base_hi, *offset, ra);
        },
        OpOf::ReadShaderCycles { dst } => {
            push_line(
                buf,
                "s_getreg_b32",
                &parts2(
                    "s2".to_string(),
                    "hwreg(HW_REG_SHADER_CYCLES)  ; GPU cycle counter".to_string(),
                ),
            );
            push_line(buf, "v_mov_b32", &parts2(vreg_str(*dst, ra), "s2".to_string()));
        },
        _ => {
            push_line(buf, mnemonic(op), &operands(op, ra));
        },
    }
    assert(buf@ =~= old(buf)@ + op_text(*op, *ra));
}

// ── Emitter state ──
/// What an emitter has written and counted.
#[verifier::ext_equal]
pub struct EmitState {
    /// The assembly so far.
    pub text: Seq<char>,
    /// Outstanding global accesses.
    pub vmcnt: int,
    /// Outstanding accesses to the local data share and to scalar memory.
    pub lgkmcnt: int,
    /// Outstanding global stores.
    pub vscnt: int,
    /// Waits written.
    pub waits_emitted: int,
    /// Waits left out.
    pub waits_elided: int,
    /// The number of the next vector operation, from one.
    pub valu_count: int,
    /// For each vector register the number of the vector operation that wrote it last, or
    /// zero.
    pub last_writer: Seq<u32>,
    /// Dependency hints written.
    pub delays: int,
    /// Whether dependency hints are written at all.
    pub delay_alu: bool,
}

/// Whether an operation ends a stretch in which dependencies are tracked.
pub open spec fn is_sync<S>(op: OpOf<S>) -> bool {
    op is Label || op is Branch || op is BranchScc0 || op is BranchScc1 || op is BranchVccz
        || op is Barrier || op is SBarrier || op is WaitVmcnt || op is WaitLgkmcnt
        || op is WaitVscnt
}

/// Whether an operation takes part in dependency tracking.
pub open spec fn is_tracked<S>(op: OpOf<S>) -> bool {
    op !is RawAsm && (latency_of(op).pipeline is VALU || latency_of(op).pipeline is WMMA
        || latency_of(op).pipeline is TRANS)
}

/// No register written.
pub open spec fn no_writers() -> Seq<u32> {
    Seq::new(256, |i: int| 0u32)
}

/// How many vector operations ago a register was written, if one to four; else five.
pub open spec fn dep_distance(last: u32, now: int) -> int {
    if last > 0 && 1 <= now - last <= 4 {
        now - last
    } else {
        5
    }
}

/// The smallest distance to the writer of one of the registers, or five.
pub open spec fn nearest_dep(uses: Seq<VReg>, writers: Seq<u32>, now: int, ra: RegAlloc) -> int
    decreases uses.len(),
{
    if uses.len() == 0 {
        5
    } else {
        let before = nearest_dep(uses.drop_last(), writers, now, ra);
        let here = dep_distance(writers[ra.v(uses.last()) as int], now);
        if here < before {
            here
        } else {
            before
        }
    }
}

/// The writers after an operation that writes `defs`.
pub open spec fn record_writer(
    writers: Seq<u32>,
    defs: Seq<VReg>,
    now: u32,
    ra: RegAlloc,
) -> Seq<u32>
    decreases defs.len(),
{
    if defs.len() == 0 {
        writers
    } else {
        record_writer(writers, defs.drop_last(), now, ra).update(ra.v(defs.last()) as int, now)
    }
}

/// How many vector operations an operation counts as.
pub open spec fn valu_weight<S>(op: OpOf<S>) -> int {
    if op is CvtPkBf16F32 {
        2
    } else {
        1
    }
}

impl EmitState {
    /// After the end of a tracked stretch, if the operation is one.
    pub open spec fn synced(self, op: Op) -> EmitState {
        if is_sync(op) {
            EmitState { last_writer: no_writers(), ..self }
        } else {
            self
        }
    }

    /// After the dependency hint, if the operation calls for one.
    pub open spec fn hinted(self, op: Op, ra: RegAlloc) -> EmitState {
        if is_tracked(op) && self.delay_alu {
            let dep = nearest_dep(op_vreg_uses(op), self.last_writer, self.valu_count, ra);
            EmitState {
                text: if dep <= 4 {
                    self.text + line(
                        "s_delay_alu"@,
                        seq!["instid0(VALU_DEP_"@ + dec(dep as nat) + ")"@],
                    )
                } else {
                    self.text
                },
                delays: if dep <= 4 {
                    self.delays + 1
                } else {
                    self.delays
                },
                last_writer: record_writer(
                    self.last_writer,
                    op_vreg_defs(op),
                    self.valu_count as u32,
                    ra,
                ),
                valu_count: self.valu_count + valu_weight(op),
                ..self
            }
        } else {
            self
        }
    }

    /// After the operation's own text. A wait is left out when it asks for zero and
    /// nothing is outstanding; otherwise it asks for no more than is outstanding.
    pub open spec fn written(self, op: Op, ra: RegAlloc) -> EmitState {
        match op {
            OpOf::WaitVmcnt(n) => if self.vmcnt > 0 || n > 0 {
                let m = if n < self.vmcnt {
                    n as int
                } else {
                    self.vmcnt
                };
                EmitState {
                    text: self.text + line(
                        "s_waitcnt"@,
                        seq!["vmcnt("@ + dec(m as nat) + ")"@],
                    ),
                    vmcnt: m,
                    waits_emitted: self.waits_emitted + 1,
                    ..self
                }
            } else {
                EmitState { waits_elided: self.waits_elided + 1, ..self }
            },
            OpOf::WaitLgkmcnt(n) => if self.lgkmcnt > 0 || n > 0 {
                let m = if n < self.lgkmcnt {
                    n as int
                } else {
                    self.lgkmcnt
                };
                EmitState {
                    text: self.text + line(
                        "s_waitcnt"@,
                        seq!["lgkmcnt("@ + dec(m as nat) + ")"@],
                    ),
                    lgkmcnt: m,
                    waits_emitted: self.waits_emitted + 1,
                    ..self
                }
            } else {
                EmitState { waits_elided: self.waits_elided + 1, ..self }
            },
            OpOf::WaitVscnt(n) => if self.vscnt > 0 || n > 0 {
                let m = if n < self.vscnt {
                    n as int
                } else {
                    self.vscnt
                };
                EmitState {
                    text: self.text + line(
                        "s_waitcnt_vscnt"@,
                        seq!["null"@, hex_text(m as nat)],
                    ),
                    vscnt: m,
                    waits_emitted: self.waits_emitted + 1,
                    ..self
                }
            } else {
                EmitState { waits_elided: self.waits_elided + 1, ..self }
            },
            _ => EmitState {
                text: self.text + op_text(op, ra),
                vmcnt: self.vmcnt + if counts_vm(op) {
                    1int
                } else {
                    0
                },
                vscnt: self.vscnt + if counts_vs(op) {
                    1int
                } else {
                    0
                },
                lgkmcnt: self.lgkmcnt + if counts_lgkm(op) {
                    1int
                } else {
                    0
                },
                ..self
            },
        }
    }

    /// After one operation.
    pub open spec fn emit(self, op: Op, ra: RegAlloc) -> EmitState {
        self.synced(op).hinted(op, ra).written(op, ra)
    }

    /// After a sequence of operations.
    pub open spec fn emit_all(self, ops: Seq<Op>, ra: RegAlloc) -> EmitState
        decreases ops.len(),
    {
        if ops.len() == 0 {
            self
        } else {
            self.emit_all(ops.drop_last(), ra).emit(ops.last(), ra)
        }
    }

    /// Whether the counters of accesses and waits leave room for `n` more operations.
    pub open spec fn counter_room(self, n: nat) -> bool {
        &&& self.vmcnt + n <= u32::MAX
        &&& self.lgkmcnt + n <= u32::MAX
        &&& self.vscnt + n <= u32::MAX
        &&& self.waits_emitted + n <= u32::MAX
        &&& self.waits_elided + n <= u32::MAX
    }

    /// Whether the counters leave room for `n` more operations.
    pub open spec fn room(self, n: nat) -> bool {
        &&& self.counter_room(n)
        &&& self.delays + n <= u32::MAX
        &&& self.valu_count + 2 * n <= u32::MAX
    }

    /// Whether the writers recorded so far came before now.
    pub open spec fn wf(self) -> bool {
        &&& self.last_writer.len() == 256
        &&& forall|i: int| 0 <= i < 256 ==> #[trigger] self.last_writer[i] <= self.valu_count
        &&& self.valu_count >= 1
    }
}

/// Whether an operation leaves a global access outstanding; on this processor a store
/// counts too.
pub open spec fn counts_vm<S>(op: OpOf<S>) -> bool {
    latency_of(op).wait_counter == Some(WaitCounter::VMcnt) || counts_vs(op)
}

/// Whether an operation leaves a global store outstanding.
pub open spec fn counts_vs<S>(op: OpOf<S>) -> bool {
    latency_of(op).wait_counter == Some(WaitCounter::VScnt)
}

/// Whether an operation leaves an access to the local data share or to scalar memory
/// outstanding.
pub open spec fn counts_lgkm<S>(op: OpOf<S>) -> bool {
    latency_of(op).wait_counter == Some(WaitCounter::LGKMcnt)
}

// ── Emitter ──
/// Writes operations as assembly text.
pub struct AsmEmitter {
    buf: String,
    outstanding_vmcnt: u32,
    outstanding_lgkmcnt: u32,
    outstanding_vscnt: u32,
    waits_emitted: u32,
    waits_elided: u32,
    valu_count: u32,
    last_writer: Vec<u32>,
    delay_alu_emitted: u32,
    delay_alu: bool,
}

impl View for AsmEmitter {
    type V = EmitState;

    closed spec fn view(&self) -> EmitState {
        EmitState {
            text: self.buf@,
            vmcnt: self.outstanding_vmcnt as int,
            lgkmcnt: self.outstanding_lgkmcnt as int,
            vscnt: self.outstanding_vscnt as int,
            waits_emitted: self.waits_emitted as int,
            waits_elided: self.waits_elided as int,
            valu_count: self.valu_count as int,
            last_writer: self.last_writer@,
            delays: self.delay_alu_emitted as int,
            delay_alu: self.delay_alu,
        }
    }
}

/// The state of an emitter that has written nothing.
pub open spec fn fresh_state() -> EmitState {
    EmitState {
        text: Seq::empty(),
        vmcnt: 0,
        lgkmcnt: 0,
        vscnt: 0,
        waits_emitted: 0,
        waits_elided: 0,
        valu_count: 1,
        last_writer: no_writers(),
        delays: 0,
        delay_alu: true,
    }
}

/// The assembly in front of a kernel's operations.
pub open spec fn header_text(name: Seq<char>, target: Target) -> Seq<char> {
    ".amdgcn_target \"amdgcn-amd-amdhsa--"@ + target.mcpu() + "\"\n\n.text\n.globl "@ + name
        + "\n.p2align 8\n.type "@ + name + ",@function\n"@ + name + ":\n"@
}

/// The assembly behind a kernel's operations: the end label and the kernel descriptor.
pub open spec fn footer_text(
    name: Seq<char>,
    ra: RegAlloc,
    kernarg_size: u32,
    lds_size: u32,
    wgp_mode: bool,
) -> Seq<char> {
    ".Lfunc_end_"@ + name + ":\n  .size "@ + name + ", .Lfunc_end_"@ + name + "-"@ + name
        + "\n\n.rodata\n.p2align 6\n.amdhsa_kernel "@ + name
        + "\n  .amdhsa_group_segment_fixed_size "@ + dec(lds_size as nat)
        + "\n  .amdhsa_private_segment_fixed_size 0\n  .amdhsa_kernarg_size "@ + dec(
        kernarg_size as nat,
    ) + "\n  .amdhsa_user_sgpr_kernarg_segment_ptr 1\n  .amdhsa_next_free_vgpr "@ + dec(
        ra.total_vgprs as nat,
    ) + "\n  .amdhsa_next_free_sgpr "@ + dec(ra.total_sgprs as nat)
        + "\n  .amdhsa_wavefront_size32 1\n  .amdhsa_system_sgpr_workgroup_id_x 1\n  .amdhsa_system_sgpr_workgroup_id_y 1\n  .amdhsa_system_sgpr_workgroup_id_z 1\n  .amdhsa_float_denorm_mode_32 3\n  .amdhsa_float_denorm_mode_16_64 3\n  .amdhsa_workgroup_processor_mode "@
        + (if wgp_mode {
        "1"@
    } else {
        "0"@
    }) + "\n.end_amdhsa_kernel\n\n"@
}

/// Whether each of a sequence of operations can be written down.
pub open spec fn all_encodable(ops: Seq<Op>, ra: RegAlloc) -> bool {
    forall|i: int| 0 <= i < ops.len() ==> encodable(#[trigger] ops[i], ra)
}

/// The state after a whole kernel.
pub open spec fn kernel_state(
    before: EmitState,
    name: Seq<char>,
    ops: Seq<Op>,
    ra: RegAlloc,
    target: Target,
    kernarg_size: u32,
    lds_size: u32,
    wgp_mode: bool,
) -> EmitState {
    let opened = EmitState { text: before.text + header_text(name, target), ..before };
    let body = opened.emit_all(ops, ra);
    EmitState {
        text: body.text + footer_text(name, ra, kernarg_size, lds_size, wgp_mode),
        ..body
    }
}

/// The distance to a writer, when in range.
fn dep_distance_of(last: u32, now: u32) -> (r: u32)
    requires
        last <= now,
    ensures
        r == dep_distance(last, now as int),
{
    if last > 0 && now - last >= 1 && now - last <= 4 {
        now - last
    } else {
        5
    }
}

/// What is waited for: no more than there is.
fn wait_value(n: u8, outstanding: u32) -> (r: u32)
    ensures
        r == (if n < outstanding {
            n as int
        } else {
            outstanding as int
        }),
{
    let m: u32 = n as u32;
    if m < outstanding {
        m
    } else {
        outstanding
    }
}

/// A number in round brackets behind a counter's name.
fn counter_str(name: &str, n: u32) -> (r: String)
    ensures
        r@ == name@ + dec(n as nat) + ")"@,
{
    let mut r = String::new();
    r.append(name);
    push_dec(&mut r, n as u64);
    r.append(")");
    assert(r@ =~= name@ + dec(n as nat) + ")"@);
    r
}

impl AsmEmitter {
    /// An emitter that has written nothing.
    pub fn new() -> (r: Self)
        ensures
            r@ == fresh_state(),
            r@.wf(),
    {
        let mut last_writer: Vec<u32> = Vec::new();
        let mut i: usize = 0;
        while i < 256
            invariant
                i <= 256,
                last_writer@ == no_writers().take(i as int),
            decreases 256 - i,
        {
            last_writer.push(0);
            i = i + 1;
            assert(last_writer@ =~= no_writers().take(i as int));
        }
        assert(last_writer@ =~= no_writers());
        let r = AsmEmitter {
            buf: String::new(),
            outstanding_vmcnt: 0,
            outstanding_lgkmcnt: 0,
            outstanding_vscnt: 0,
            waits_emitted: 0,
            waits_elided: 0,
            valu_count: 1,
            last_writer,
            delay_alu_emitted: 0,
            delay_alu: true,
        };
        assert(r@ =~= fresh_state());
        r
    }

    /// Turns dependency hints on or off.
    pub fn set_delay_alu(&mut self, enable: bool)
        ensures
            final(self)@ == (EmitState { delay_alu: enable, ..old(self)@ }),
    {
        self.delay_alu = enable;
    }

    /// How many waits were written, and how many left out.
    pub fn wait_stats(&self) -> (r: (u32, u32))
        ensures
            r.0 == self@.waits_emitted,
            r.1 == self@.waits_elided,
    {
        (self.waits_emitted, self.waits_elided)
    }

    /// Forgets who wrote what.
    fn reset_writers(&mut self)
        requires
            old(self)@.wf(),
        ensures
            final(self)@ == (EmitState { last_writer: no_writers(), ..old(self)@ }),
            final(self)@.wf(),
    {
        let mut i: usize = 0;
        while i < 256
            invariant
                i <= 256,
                self.last_writer@.len() == 256,
                forall|k: int| 0 <= k < i ==> #[trigger] self.last_writer@[k] == 0,
                self@ == (EmitState { last_writer: self.last_writer@, ..old(self)@ }),
                old(self)@.wf(),
            decreases 256 - i,
        {
            self.last_writer.set(i, 0);
            i = i + 1;
        }
        assert(self.last_writer@ =~= no_writers());
    }

    /// Writes the dependency hint for an operation, if it calls for one, and records what
    /// the operation writes.
    fn hint(&mut self, op: &Op, ra: &RegAlloc)
        requires
            old(self)@.wf(),
            old(self)@.room(1),
            encodable(*op, *ra),
        ensures
            final(self)@ == old(self)@.hinted(*op, *ra),
            final(self)@.wf(),
    {
        if !self.delay_alu || matches!(op, OpOf::RawAsm(_)) {
            return ;
        }
        let info = op_latency(op);
        if !matches!(info.pipeline, Pipeline::VALU | Pipeline::WMMA | Pipeline::TRANS) {
            return ;
        }
        proof {
            lemma_refs_placed(*op, *ra);
        }
        let now: u32 = self.valu_count;
        let uses: Vec<VReg> = op.vreg_uses();
        let mut min_dep: u32 = 5;
        let mut i: usize = 0;
        while i < uses.len()
            invariant
                i <= uses.len(),
                uses@ == op_vreg_uses(*op),
                forall|k: int| 0 <= k < uses@.len() ==> ra.has_v(#[trigger] uses@[k]),
                self@ == old(self)@,
                self@.wf(),
                now == self@.valu_count,
                min_dep == nearest_dep(
                    uses@.take(i as int),
                    self@.last_writer,
                    now as int,
                    *ra,
                ),
            decreases uses.len() - i,
        {
            let p: u8 = ra.phys_v(uses[i]);
            let d: u32 = dep_distance_of(self.last_writer[p as usize], now);
            if d < min_dep {
                min_dep = d;
            }
            i = i + 1;
            assert(uses@.take(i as int).drop_last() =~= uses@.take(i - 1));
        }
        assert(uses@.take(i as int) =~= uses@);
        if min_dep <= 4 {
            let mut hint = String::new();
            hint.append("instid0(VALU_DEP_");
            push_dec(&mut hint, min_dep as u64);
            hint.append(")");
            assert(hint@ =~= "instid0(VALU_DEP_"@ + dec(min_dep as nat) + ")"@);
            push_line(&mut self.buf, "s_delay_alu", &parts1(hint));
            self.delay_alu_emitted = self.delay_alu_emitted + 1;
        }
        let ghost hinted = self@;
        let defs: Vec<VReg> = op.vreg_defs();
        let mut j: usize = 0;
        while j < defs.len()
            invariant
                j <= defs.len(),
                defs@ == op_vreg_defs(*op),
                forall|k: int| 0 <= k < defs@.len() ==> ra.has_v(#[trigger] defs@[k]),
                hinted.wf(),
                now == hinted.valu_count,
                self@ == (EmitState {
                    last_writer: record_writer(
                        hinted.last_writer,
                        defs@.take(j as int),
                        now,
                        *ra,
                    ),
                    ..hinted
                }),
                self@.wf(),
            decreases defs.len() - j,
        {
            let p: u8 = ra.phys_v(defs[j]);
            self.last_writer.set(p as usize, now);
            j = j + 1;
            assert(defs@.take(j as int).drop_last() =~= defs@.take(j - 1));
        }
        assert(defs@.take(j as int) =~= defs@);
        if matches!(op, OpOf::CvtPkBf16F32 { .. }) {
            self.valu_count = self.valu_count + 2;
        } else {
            self.valu_count = self.valu_count + 1;
        }
        assert(self@ =~= old(self)@.hinted(*op, *ra));
    }

    /// Writes an operation's own text and counts its memory accesses.
    fn write_op(&mut self, op: &Op, ra: &RegAlloc)
        requires
            old(self)@.wf(),
            old(self)@.counter_room(1),
            encodable(*op, *ra),
        ensures
            final(self)@ == old(self)@.written(*op, *ra),
            final(self)@.wf(),
    {
        match op {
            OpOf::WaitVmcnt(n) => {
                if self.outstanding_vmcnt > 0 || *n > 0 {
                    let actual: u32 = wait_value(*n, self.outstanding_vmcnt);
                    push_line(&mut self.buf, "s_waitcnt", &parts1(counter_str("vmcnt(", actual)));
                    self.outstanding_vmcnt = actual;
                    self.waits_emitted = self.waits_emitted + 1;
                } else {
                    self.waits_elided = self.waits_elided + 1;
                }
            },
            OpOf::WaitLgkmcnt(n) => {
                if self.outstanding_lgkmcnt > 0 || *n > 0 {
                    let actual: u32 = wait_value(*n, self.outstanding_lgkmcnt);
                    push_line(
                        &mut self.buf,
                        "s_waitcnt",
                        &parts1(counter_str("lgkmcnt(", actual)),
                    );
                    self.outstanding_lgkmcnt = actual;
                    self.waits_emitted = self.waits_emitted + 1;
                } else {
                    self.waits_elided = self.waits_elided + 1;
                }
            },
            OpOf::WaitVscnt(n) => {
                if self.outstanding_vscnt > 0 || *n > 0 {
                    let actual: u32 = wait_value(*n, self.outstanding_vscnt);
                    push_line(
                        &mut self.buf,
                        "s_waitcnt_vscnt",
                        &parts2("null".to_string(), hex_u32(actual)),
                    );
                    self.outstanding_vscnt = actual;
                    self.waits_emitted = self.waits_emitted + 1;
                } else {
                    self.waits_elided = self.waits_elided + 1;
                }
            },
            _ => {
                push_op(&mut self.buf, op, ra);
                match op_latency(op).wait_counter {
                    Some(WaitCounter::VMcnt) => {
                        self.outstanding_vmcnt = self.outstanding_vmcnt + 1;
                    },
                    Some(WaitCounter::VScnt) => {
                        self.outstanding_vmcnt = self.outstanding_vmcnt + 1;
                        self.outstanding_vscnt = self.outstanding_vscnt + 1;
                    },
                    Some(WaitCounter::LGKMcnt) => {
                        self.outstanding_lgkmcnt = self.outstanding_lgkmcnt + 1;
                    },
                    None => {},
                }
            },
        }
        assert(self@ =~= old(self)@.written(*op, *ra));
    }

    /// Writes one operation.
    pub fn emit_op(&mut self, op: &Op, ra: &RegAlloc)
        requires
            old(self)@.wf(),
            old(self)@.room(1),
            encodable(*op, *ra),
        ensures
            final(self)@ == old(self)@.emit(*op, *ra),
            final(self)@.wf(),
    {
        if matches!(op, OpOf::Label(_) | OpOf::Branch(_) | OpOf::BranchScc0(_)
            | OpOf::BranchScc1(_) | OpOf::BranchVccz(_) | OpOf::Barrier | OpOf::SBarrier
            | OpOf::WaitVmcnt(_) | OpOf::WaitLgkmcnt(_) | OpOf::WaitVscnt(_)) {
            self.reset_writers();
        }
        self.hint(op, ra);
        self.write_op(op, ra);
    }

    /// Writes a complete kernel: header, operations, kernel descriptor.
    pub fn emit_kernel(
        &mut self,
        name: &str,
        ops: &[Op],
        ra: &RegAlloc,
        target: Target,
        kernarg_size: u32,
        lds_size: u32,
        wgp_mode: bool,
    )
        requires
            old(self)@.wf(),
            old(self)@.room(ops@.len()),
            all_encodable(ops@, *ra),
        ensures
            final(self)@ == kernel_state(
                old(self)@,
                name@,
                ops@,
                *ra,
                target,
                kernarg_size,
                lds_size,
                wgp_mode,
            ),
            final(self)@.wf(),
    {
        self.push_header(name, target);
        let ghost opened = self@;
        let mut i: usize = 0;
        while i < ops.len()
            invariant
                i <= ops.len(),
                all_encodable(ops@, *ra),
                self@ == opened.emit_all(ops@.take(i as int), *ra),
                self@.wf(),
                self@.room((ops@.len() - i) as nat),
            decreases ops.len() - i,
        {
            let ghost before = self@;
            self.emit_op(&ops[i], ra);
            i = i + 1;
            assert(ops@.take(i as int).drop_last() =~= ops@.take(i - 1));
        }
        assert(ops@.take(i as int) =~= ops@);
        self.push_footer(name, ra, kernarg_size, lds_size, wgp_mode);
    }

    /// Writes the header of a kernel.
    fn push_header(&mut self, name: &str, target: Target)
        ensures
            final(self)@ == (EmitState {
                text: old(self)@.text + header_text(name@, target),
                ..old(self)@
            }),
    {
        let mut t = String::new();
        t.append(".amdgcn_target \"amdgcn-amd-amdhsa--");
        assert(t@ =~= ".amdgcn_target \"amdgcn-amd-amdhsa--"@);
        t.append(target.mcpu_str());
        t.append("\"\n\n.text\n.globl ");
        t.append(name);
        t.append("\n.p2align 8\n.type ");
        t.append(name);
        t.append(",@function\n");
        t.append(name);
        t.append(":\n");
        self.buf.append(t.as_str());
    }

    /// Writes the end label and the descriptor of a kernel.
    fn push_footer(
        &mut self,
        name: &str,
        ra: &RegAlloc,
        kernarg_size: u32,
        lds_size: u32,
        wgp_mode: bool,
    )
        ensures
            final(self)@ == (EmitState {
                text: old(self)@.text + footer_text(
                    name@,
                    *ra,
                    kernarg_size,
                    lds_size,
                    wgp_mode,
                ),
                ..old(self)@
            }),
    {
        let mut t = String::new();
        t.append(".Lfunc_end_");
        assert(t@ =~= ".Lfunc_end_"@);
        t.append(name);
        t.append(":\n  .size ");
        t.append(name);
        t.append(", .Lfunc_end_");
        t.append(name);
        t.append("-");
        t.append(name);
        t.append("\n\n.rodata\n.p2align 6\n.amdhsa_kernel ");
        t.append(name);
        t.append("\n  .amdhsa_group_segment_fixed_size ");
        push_dec(&mut t, lds_size as u64);
        t.append("\n  .amdhsa_private_segment_fixed_size 0\n  .amdhsa_kernarg_size ");
        push_dec(&mut t, kernarg_size as u64);
        t.append(
            "\n  .amdhsa_user_sgpr_kernarg_segment_ptr 1\n  .amdhsa_next_free_vgpr ",
        );
        push_dec(&mut t, ra.total_vgprs as u64);
        t.append("\n  .amdhsa_next_free_sgpr ");
        push_dec(&mut t, ra.total_sgprs as u64);
        t.append(
            "\n  .amdhsa_wavefront_size32 1\n  .amdhsa_system_sgpr_workgroup_id_x 1\n  .amdhsa_system_sgpr_workgroup_id_y 1\n  .amdhsa_system_sgpr_workgroup_id_z 1\n  .amdhsa_float_denorm_mode_32 3\n  .amdhsa_float_denorm_mode_16_64 3\n  .amdhsa_workgroup_processor_mode ",
        );
        if wgp_mode {
            t.append("1");
        } else {
            t.append("0");
        }
        t.append("\n.end_amdhsa_kernel\n\n");
        self.buf.append(t.as_str());
    }

    /// The assembly text.
    pub fn finish(self) -> (r: String)
        ensures
            r@ == self@.text,
    {
        self.buf
    }
}

/// A wait never asks for more than is outstanding, and leaves no more outstanding than it
/// asks for.
pub proof fn wait_bounds_outstanding(st: EmitState, n: u8, ra: RegAlloc)
    requires
        st.vmcnt >= 0,
        st.lgkmcnt >= 0,
        st.vscnt >= 0,
    ensures
        st.emit(OpOf::WaitVmcnt(n), ra).vmcnt <= st.vmcnt,
        st.emit(OpOf::WaitVmcnt(n), ra).vmcnt <= n,
        st.emit(OpOf::WaitLgkmcnt(n), ra).lgkmcnt <= st.lgkmcnt,
        st.emit(OpOf::WaitLgkmcnt(n), ra).lgkmcnt <= n,
        st.emit(OpOf::WaitVscnt(n), ra).vscnt <= st.vscnt,
        st.emit(OpOf::WaitVscnt(n), ra).vscnt <= n,
{
}

/// Every operation that a wait can wait for is counted by the counter of that wait, a store
/// also among the global accesses; no other operation is, and what is outstanding only
/// becomes less by a wait.
pub proof fn outstanding_operations_are_counted(st: EmitState, op: Op, ra: RegAlloc)
    requires
        !is_wait(op),
    ensures
        st.emit(op, ra).lgkmcnt == st.lgkmcnt + if latency_of(op).wait_counter == Some(
            WaitCounter::LGKMcnt,
        ) {
            1int
        } else {
            0
        },
        st.emit(op, ra).vscnt == st.vscnt + if latency_of(op).wait_counter == Some(
            WaitCounter::VScnt,
        ) {
            1int
        } else {
            0
        },
        st.emit(op, ra).vmcnt == st.vmcnt + if latency_of(op).wait_counter == Some(
            WaitCounter::VMcnt,
        ) || latency_of(op).wait_counter == Some(WaitCounter::VScnt) {
            1int
        } else {
            0
        },
{
}

/// A wait is left out only where no operation of its kind is outstanding, and then nothing
/// else changes.
pub proof fn left_out_waits_wait_for_nothing(st: EmitState, op: Op, ra: RegAlloc)
    requires
        is_wait(op),
        st.vmcnt >= 0,
        st.lgkmcnt >= 0,
        st.vscnt >= 0,
    ensures
        st.emit(op, ra).waits_elided != st.waits_elided ==> st.emit(op, ra) == (EmitState {
            last_writer: no_writers(),
            waits_elided: st.waits_elided + 1,
            ..st
        }) && match op {
            OpOf::WaitVmcnt(_) => st.vmcnt == 0,
            OpOf::WaitLgkmcnt(_) => st.lgkmcnt == 0,
            _ => st.vscnt == 0,
        },
{
}

/// Behind an access to the local data share or to scalar memory, a wait for all of them is
/// written, and a second one right behind it is not.
pub proof fn waits_are_written_once(st: EmitState, op: Op, ra: RegAlloc)
    requires
        latency_of(op).wait_counter == Some(WaitCounter::LGKMcnt),
        st.lgkmcnt >= 0,
    ensures
        ({
            let before = st.emit(op, ra);
            let first = before.emit(OpOf::WaitLgkmcnt(0), ra);
            let second = first.emit(OpOf::WaitLgkmcnt(0), ra);
            &&& first.text == before.text + line(
                "s_waitcnt"@,
                seq!["lgkmcnt("@ + dec(0) + ")"@],
            )
            &&& first.waits_emitted == before.waits_emitted + 1
            &&& first.lgkmcnt == 0
            &&& second.text == first.text
            &&& second.waits_elided == first.waits_elided + 1
        }),
{
}

/// What is written stays: more operations only append.
pub proof fn text_only_grows(st: EmitState, ops: Seq<Op>, ra: RegAlloc)
    ensures
        st.text.is_prefix_of(st.emit_all(ops, ra).text),
    decreases ops.len(),
{
    if ops.len() > 0 {
        let before = st.emit_all(ops.drop_last(), ra);
        text_only_grows(st, ops.drop_last(), ra);
        let op = ops.last();
        assert(before.synced(op).text == before.text);
        let hinted = before.synced(op).hinted(op, ra);
        assert(before.text.is_prefix_of(hinted.text));
        assert(hinted.text.is_prefix_of(hinted.written(op, ra).text));
        assert(st.text.is_prefix_of(st.emit_all(ops, ra).text));
    }
}

/// Whether an operation is a wait.
pub open spec fn is_wait<S>(op: OpOf<S>) -> bool {
    op is WaitVmcnt || op is WaitLgkmcnt || op is WaitVscnt
}

/// How many waits a sequence holds.
pub open spec fn waits_in(ops: Seq<Op>) -> nat
    decreases ops.len(),
{
    if ops.len() == 0 {
        0
    } else {
        waits_in(ops.drop_last()) + if is_wait(ops.last()) {
            1nat
        } else {
            0
        }
    }
}

/// Every wait is either written or left out, and counted as such.
pub proof fn waits_are_counted(st: EmitState, ops: Seq<Op>, ra: RegAlloc)
    ensures
        st.emit_all(ops, ra).waits_emitted + st.emit_all(ops, ra).waits_elided == st.waits_emitted
            + st.waits_elided + waits_in(ops),
    decreases ops.len(),
{
    if ops.len() > 0 {
        waits_are_counted(st, ops.drop_last(), ra);
    }
}

/// Writing one sequence and then another is writing both in a row.
pub proof fn emit_all_concat(st: EmitState, a: Seq<Op>, b: Seq<Op>, ra: RegAlloc)
    ensures
        st.emit_all(a + b, ra) == st.emit_all(a, ra).emit_all(b, ra),
    decreases b.len(),
{
    if b.len() == 0 {
        assert(a + b =~= a);
    } else {
        emit_all_concat(st, a, b.drop_last(), ra);
        assert((a + b).drop_last() =~= a + b.drop_last());
    }
}

} // verus!
