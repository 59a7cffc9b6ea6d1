//! Machine operations on virtual registers, and what each of them reads and writes.
use vstd::prelude::*;

verus! {

/// A virtual vector register (one value per lane).
#[derive(Clone, Copy, Debug, PartialEq, Eq, Hash, Structural)]
pub struct VReg(pub u32);

/// A virtual scalar register (one value per wave).
#[derive(Clone, Copy, Debug, PartialEq, Eq, Hash, Structural)]
pub struct SReg(pub u32);

/// Two consecutive scalar registers that hold a 64-bit value, named by the first.
#[derive(Clone, Copy, Debug, PartialEq, Eq, Hash, Structural)]
pub struct SRegPair(pub u32);

/// The number of the scalar offset register that stands for a constant zero offset.
pub const SOFFSET_ZERO: u32 = 0xFFFF_FF00;

/// How many bits a memory access moves per lane.
#[derive(Clone, Copy, Debug, PartialEq, Eq, Hash, Structural)]
pub enum Width {
    B16,
    B32,
    B64,
    B128,
}

impl Width {
    /// How many 32-bit registers an access of this width takes.
    pub open spec fn regs(self) -> nat {
        match self {
            Width::B16 => 1,
            Width::B32 => 1,
            Width::B64 => 2,
            Width::B128 => 4,
        }
    }

    /// How many 32-bit registers an access of this width takes.
    pub fn vreg_count(&self) -> (r: u32)
        ensures
            r == self.regs(),
    {
        match self {
            Width::B16 => 1,
            Width::B32 => 1,
            Width::B64 => 2,
            Width::B128 => 4,
        }
    }
}

/// Alignment of the first physical register of a group.
#[derive(Clone, Copy, Debug, PartialEq, Eq, Hash, Structural)]
pub enum Alignment {
    Align1,
    Align2,
    Align4,
    Align8,
}

impl Alignment {
    /// The number that the first physical register is a multiple of.
    pub open spec fn factor(self) -> nat {
        match self {
            Alignment::Align1 => 1,
            Alignment::Align2 => 2,
            Alignment::Align4 => 4,
            Alignment::Align8 => 8,
        }
    }

    /// The number that the first physical register is a multiple of.
    pub fn value(&self) -> (r: u32)
        ensures
            r == self.factor(),
    {
        match self {
            Alignment::Align1 => 1,
            Alignment::Align2 => 2,
            Alignment::Align4 => 4,
            Alignment::Align8 => 8,
        }
    }
}

/// A source of a vector operation. A float is held by its IEEE 754 bits.
#[derive(Clone, Copy, Debug, PartialEq, Eq, Hash, Structural)]
pub enum Operand {
    VReg(VReg),
    InlineInt(i32),
    InlineFloat(u32),
    Literal(u32),
}

/// A source of a scalar operation.
#[derive(Clone, Copy, Debug, PartialEq, Eq, Hash, Structural)]
pub enum SOperand {
    SReg(SReg),
    InlineInt(i32),
    Literal(u32),
    Vcc,
}

/// Element formats of a matrix multiply-accumulate: inputs, then accumulator.
#[allow(non_camel_case_types)]
#[derive(Clone, Copy, Debug, PartialEq, Eq, Hash, Structural)]
pub enum WmmaFormat {
    BF16_F32,
    F16_F32,
    BF16_BF16,
}

/// What a kernel argument holds.
#[derive(Clone, Copy, Debug, PartialEq, Eq, Hash, Structural)]
pub enum ArgKind {
    Ptr,
    U32,
    F32,
}

/// A kernel argument: its name, its place in the argument buffer, and the scalar
/// register that receives it. `S` is how the name is held, as in `OpOf`.
#[derive(Debug)]
pub struct KernArgOf<S> {
    pub name: S,
    pub kind: ArgKind,
    pub offset: u32,
    pub sreg: SReg,
}

/// An argument of a program's kernel.
pub type KernArg = KernArgOf<String>;

/// An argument as specifications see it.
pub type KernArgText = KernArgOf<Seq<char>>;

impl View for KernArg {
    type V = KernArgText;

    open spec fn view(&self) -> KernArgText {
        KernArgOf { name: self.name@, kind: self.kind, offset: self.offset, sreg: self.sreg }
    }
}

/// A group of consecutive virtual vector registers to be placed together.
#[derive(Clone, Copy, Debug, PartialEq, Eq, Structural)]
pub struct VRegAlloc {
    pub vreg: VReg,
    pub count: u32,
    pub alignment: Alignment,
}

/// A group of consecutive virtual scalar registers to be placed together.
#[derive(Clone, Copy, Debug, PartialEq, Eq, Structural)]
pub struct SRegAlloc {
    pub sreg: SReg,
    pub count: u32,
    pub alignment: Alignment,
}

/// The processor that code is generated for.
#[derive(Clone, Copy, Debug, PartialEq, Eq, Hash, Structural)]
pub enum Target {
    GFX1100,
}

impl Target {
    /// The processor's name as the assembler knows it.
    pub open spec fn mcpu(self) -> Seq<char> {
        "gfx1100"@
    }

    /// The processor's name as the assembler knows it.
    pub fn mcpu_str(&self) -> (r: &'static str)
        ensures
            r@ == self.mcpu(),
    {
        "gfx1100"
    }
}

/// The `n` consecutive vector registers that start at `base`.
pub open spec fn vregs(base: VReg, n: nat) -> Seq<VReg> {
    Seq::new(n, |i: int| VReg(base.0.wrapping_add(i as u32)))
}

/// The `n` consecutive scalar registers that start at `base`.
pub open spec fn sregs(base: SReg, n: nat) -> Seq<SReg> {
    Seq::new(n, |i: int| SReg(base.0.wrapping_add(i as u32)))
}

/// The vector register that an operand names, if it names one.
pub open spec fn operand_vregs(o: Operand) -> Seq<VReg> {
    match o {
        Operand::VReg(v) => seq![v],
        _ => Seq::empty(),
    }
}

/// The scalar register that an operand names, if it names one.
pub open spec fn soperand_sregs(o: SOperand) -> Seq<SReg> {
    match o {
        SOperand::SReg(s) => seq![s],
        _ => Seq::empty(),
    }
}

/// The scalar register that a buffer access takes its offset from, if any.
pub open spec fn soffset_sregs(s: SReg) -> Seq<SReg> {
    if s.0 == SOFFSET_ZERO {
        Seq::empty()
    } else {
        seq![s]
    }
}

/// Appends the `n` registers that start at `base`.
pub(crate) fn push_vregs(r: &mut Vec<VReg>, base: VReg, n: u32)
    ensures
        final(r)@ == old(r)@ + vregs(base, n as nat),
{
    let mut i: u32 = 0;
    while i < n
        invariant
            i <= n,
            r@ == old(r)@ + vregs(base, i as nat),
        decreases n - i,
    {
        r.push(VReg(base.0.wrapping_add(i)));
        i = i + 1;
        assert(vregs(base, i as nat) =~= vregs(base, (i - 1) as nat).push(
            VReg(base.0.wrapping_add((i - 1) as u32)),
        ));
    }
}

/// Appends the `n` registers that start at `base`.
fn push_sregs(r: &mut Vec<SReg>, base: SReg, n: u32)
    ensures
        final(r)@ == old(r)@ + sregs(base, n as nat),
{
    let mut i: u32 = 0;
    while i < n
        invariant
            i <= n,
            r@ == old(r)@ + sregs(base, i as nat),
        decreases n - i,
    {
        r.push(SReg(base.0.wrapping_add(i)));
        i = i + 1;
        assert(sregs(base, i as nat) =~= sregs(base, (i - 1) as nat).push(
            SReg(base.0.wrapping_add((i - 1) as u32)),
        ));
    }
}

/// Appends the register that an operand names, if it names one.
fn push_operand(r: &mut Vec<VReg>, o: Operand)
    ensures
        final(r)@ == old(r)@ + operand_vregs(o),
{
    match o {
        Operand::VReg(v) => r.push(v),
        _ => {},
    }
}

/// Appends the register that an operand names, if it names one.
fn push_soperand(r: &mut Vec<SReg>, o: SOperand)
    ensures
        final(r)@ == old(r)@ + soperand_sregs(o),
{
    match o {
        SOperand::SReg(s) => r.push(s),
        _ => {},
    }
}

/// Appends the register that a buffer access takes its offset from, if any.
fn push_soffset(r: &mut Vec<SReg>, s: SReg)
    ensures
        final(r)@ == old(r)@ + soffset_sregs(s),
{
    if s.0 != SOFFSET_ZERO {
        r.push(s);
    }
}


/// One machine operation on virtual registers, before register allocation.
///
/// `S` is how the operation holds its text (label names, raw assembly): `String`
/// in programs, `Seq<char>` in specifications.
#[allow(inconsistent_fields)]
#[derive(Debug)]
pub enum OpOf<S> {
    // ── Global and buffer memory ──
    GlobalLoad { dst: VReg, addr: VReg, width: Width, offset: i32 },
    GlobalStore { addr: VReg, src: VReg, width: Width, offset: i32 },
    BufferLoad { dst: VReg, voffset: VReg, srsrc: SReg, width: Width, offset: u16, soffset: SReg },
    BufferStore { voffset: VReg, src: VReg, srsrc: SReg, width: Width, offset: u16, soffset: SReg },
    GlobalAtomicAddF32 { addr: VReg, src: VReg, offset: i32 },
    GlobalAtomicAddU32Rtn { dst: VReg, addr: VReg, src: VReg },
    BufferWbl2 { addr: VReg },
    // ── Local data share ──
    LdsLoad { dst: VReg, addr: VReg, width: Width, offset: u16 },
    LdsStore { addr: VReg, src: VReg, width: Width, offset: u16 },
    DsStoreB16 { vaddr: VReg, src: VReg, offset: u16 },
    DsStoreB32 { vaddr: VReg, src: VReg, offset: u16 },
    DsStoreB64 { vaddr: VReg, src: VReg, offset: u16 },
    DsStoreB128 { vaddr: VReg, src: VReg, offset: u16 },
    DsLoadB32 { dst: VReg, vaddr: VReg, offset: u16 },
    DsLoadB64 { dst: VReg, vaddr: VReg, offset: u16 },
    DsLoadB128 { dst: VReg, vaddr: VReg, offset: u16 },
    DsLoadU16 { dst: VReg, vaddr: VReg, offset: u16 },
    DsLoadU16D16 { dst: VReg, vaddr: VReg, offset: u16 },
    DsLoadU16D16Hi { dst: VReg, vaddr: VReg, offset: u16 },
    // ── Scalar memory ──
    ScalarLoad { dst: SReg, base: SRegPair, offset: u32, width: Width },
    SMemLoadDword { dst: SReg, base_lo: SReg, base_hi: SReg, offset: u32 },
    // ── Vector ALU ──
    VAddF32 { dst: VReg, src0: Operand, src1: Operand },
    VMulF32 { dst: VReg, src0: Operand, src1: Operand },
    VSubF32 { dst: VReg, src0: Operand, src1: Operand },
    VMaxF32 { dst: VReg, src0: Operand, src1: Operand },
    VMinF32 { dst: VReg, src0: Operand, src1: Operand },
    VMinU32 { dst: VReg, src0: Operand, src1: Operand },
    VAddU32 { dst: VReg, src0: Operand, src1: Operand },
    VSubU32 { dst: VReg, src0: Operand, src1: Operand },
    VAndB32 { dst: VReg, src0: Operand, src1: Operand },
    VOrB32 { dst: VReg, src0: Operand, src1: Operand },
    VXorB32 { dst: VReg, src0: Operand, src1: Operand },
    VFmaF32 { dst: VReg, src0: Operand, src1: Operand, src2: Operand },
    VMov { dst: VReg, src: Operand },
    VMovFromSgpr { dst: VReg, src: SReg },
    VMulLoU32 { dst: VReg, src0: VReg, src1: VReg },
    VLshlrevB32 { dst: VReg, shift: u8, src: VReg },
    VLshrrevB32 { dst: VReg, shift: u8, src: VReg },
    VLshrrevB32Vgpr { dst: VReg, shift: VReg, src: VReg },
    VAndOrB32 { dst: VReg, src0: VReg, literal: u32, src2: VReg },
    VReadfirstlane { dst: SReg, src: VReg },
    CvtPkBf16F32 { dst: VReg, src0: VReg, src1: VReg },
    VCvtF32U32 { dst: VReg, src: VReg },
    VCvtU32F32 { dst: VReg, src: VReg },
    VPermlanex16B32 { dst: VReg, src: VReg },
    VRsqF32 { dst: VReg, src: VReg },
    VExpF32 { dst: VReg, src: VReg },
    VSinF32 { dst: VReg, src: VReg },
    VCosF32 { dst: VReg, src: VReg },
    VRcpF32 { dst: VReg, src: VReg },
    VSqrtF32 { dst: VReg, src: VReg },
    VLog2F32 { dst: VReg, src: VReg },
    // ── 64-bit address arithmetic ──
    VAddCo { dst: VReg, src0: VReg, src1: VReg },
    VAddCoCi { dst: VReg, src: VReg },
    VAddCOU32 { dst: VReg, src0: VReg, src1: VReg },
    VAddCCU32 { dst: VReg, src: VReg },
    // ── Vector comparisons and selection ──
    VCmpLtU32 { src0: Operand, src1: Operand },
    VCmpGeU32 { src0: Operand, src1: Operand },
    VCmpGtU32 { src0: Operand, src1: Operand },
    VCmpEqU32 { src0: Operand, src1: Operand },
    VCmpEqF32 { src0: Operand, src1: Operand },
    VCmpGtF32 { src0: Operand, src1: Operand },
    VCmpLtF32 { src0: Operand, src1: Operand },
    VCmpGeF32 { src0: Operand, src1: Operand },
    VCmpGtF32Imm0 { src: VReg },
    VCmpGtU32Imm { src: VReg, imm: u32 },
    VCmpEqU32Imm { src: VReg, imm: u32 },
    VCmpGeI32 { src0: VReg, src1: VReg },
    VCndmaskB32 { dst: VReg, src_false: Operand, src_true: Operand },
    // ── Scalar ALU ──
    SAddU32 { dst: SReg, src0: SReg, src1: SOperand },
    SAddcU32 { dst: SReg, src0: SReg, src1: SOperand },
    SSubU32 { dst: SReg, src0: SReg, src1: SOperand },
    SAndB32 { dst: SReg, src0: SReg, src1: SOperand },
    SMulI32 { dst: SReg, src0: SReg, src1: SReg },
    SLshlB32 { dst: SReg, src: SReg, shift: u8 },
    SLshrB32 { dst: SReg, src: SReg, shift: u8 },
    SMov { dst: SReg, src: SOperand },
    SCmpLtU32 { src0: SReg, src1: SReg },
    SCmpGeU32 { src0: SReg, src1: SReg },
    SCmpEqU32 { src0: SReg, src1: SOperand },
    ClearVcc,
    SMovToVcc { src: SReg },
    // ── Matrix multiply-accumulate ──
    Wmma { dst: VReg, a: VReg, b: VReg, c: VReg, format: WmmaFormat },
    // ── Cross-lane ──
    DsSwizzle { dst: VReg, src: VReg, offset: u16 },
    WaveReduceAddF32 { val: VReg, tmp: VReg },
    WaveReduceMaxF32 { val: VReg, tmp: VReg },
    WaveReduceMinF32 { val: VReg, tmp: VReg },
    // ── Execution mask ──
    SaveExec { dst: SReg },
    RestoreExec { src: SReg },
    XorExec { saved: SReg },
    // ── Control flow and synchronization ──
    Label(S),
    Branch(S),
    BranchScc0(S),
    BranchScc1(S),
    BranchVccz(S),
    Barrier,
    SBarrier,
    WaitVmcnt(u8),
    WaitLgkmcnt(u8),
    WaitVscnt(u8),
    Endpgm,
    // ── Hardware registers ──
    CaptureTgid { dst: SReg, axis: u8 },
    ComputeGlobalIdX { dst: VReg, wg_size: u32 },
    ReadShaderCycles { dst: VReg },
    // ── Raw assembly ──
    RawAsm(S),
}

/// An operation of a program.
pub type Op = OpOf<String>;

/// An operation as specifications see it, its text as a sequence of characters.
pub type OpText = OpOf<Seq<char>>;

impl View for Op {
    type V = OpText;

    open spec fn view(&self) -> OpText {
        match *self {
            OpOf::GlobalLoad { dst, addr, width, offset } => OpOf::GlobalLoad {
                dst,
                addr,
                width,
                offset,
            },
            OpOf::GlobalStore { addr, src, width, offset } => OpOf::GlobalStore {
                addr,
                src,
                width,
                offset,
            },
            OpOf::BufferLoad { dst, voffset, srsrc, width, offset, soffset } => OpOf::BufferLoad {
                dst,
                voffset,
                srsrc,
                width,
                offset,
                soffset,
            },
            OpOf::BufferStore { voffset, src, srsrc, width, offset, soffset } => OpOf::BufferStore {
                voffset,
                src,
                srsrc,
                width,
                offset,
                soffset,
            },
            OpOf::GlobalAtomicAddF32 { addr, src, offset } => OpOf::GlobalAtomicAddF32 {
                addr,
                src,
                offset,
            },
            OpOf::GlobalAtomicAddU32Rtn { dst, addr, src } => OpOf::GlobalAtomicAddU32Rtn {
                dst,
                addr,
                src,
            },
            OpOf::BufferWbl2 { addr } => OpOf::BufferWbl2 { addr },
            OpOf::LdsLoad { dst, addr, width, offset } => OpOf::LdsLoad {
                dst,
                addr,
                width,
                offset,
            },
            OpOf::LdsStore { addr, src, width, offset } => OpOf::LdsStore {
                addr,
                src,
                width,
                offset,
            },
            OpOf::DsStoreB16 { vaddr, src, offset } => OpOf::DsStoreB16 { vaddr, src, offset },
            OpOf::DsStoreB32 { vaddr, src, offset } => OpOf::DsStoreB32 { vaddr, src, offset },
            OpOf::DsStoreB64 { vaddr, src, offset } => OpOf::DsStoreB64 { vaddr, src, offset },
            OpOf::DsStoreB128 { vaddr, src, offset } => OpOf::DsStoreB128 { vaddr, src, offset },
            OpOf::DsLoadB32 { dst, vaddr, offset } => OpOf::DsLoadB32 { dst, vaddr, offset },
            OpOf::DsLoadB64 { dst, vaddr, offset } => OpOf::DsLoadB64 { dst, vaddr, offset },
            OpOf::DsLoadB128 { dst, vaddr, offset } => OpOf::DsLoadB128 { dst, vaddr, offset },
            OpOf::DsLoadU16 { dst, vaddr, offset } => OpOf::DsLoadU16 { dst, vaddr, offset },
            OpOf::DsLoadU16D16 { dst, vaddr, offset } => OpOf::DsLoadU16D16 { dst, vaddr, offset },
            OpOf::DsLoadU16D16Hi { dst, vaddr, offset } => OpOf::DsLoadU16D16Hi {
                dst,
                vaddr,
                offset,
            },
            OpOf::ScalarLoad { dst, base, offset, width } => OpOf::ScalarLoad {
                dst,
                base,
                offset,
                width,
            },
            OpOf::SMemLoadDword { dst, base_lo, base_hi, offset } => OpOf::SMemLoadDword {
                dst,
                base_lo,
                base_hi,
                offset,
            },
            OpOf::VAddF32 { dst, src0, src1 } => OpOf::VAddF32 { dst, src0, src1 },
            OpOf::VMulF32 { dst, src0, src1 } => OpOf::VMulF32 { dst, src0, src1 },
            OpOf::VSubF32 { dst, src0, src1 } => OpOf::VSubF32 { dst, src0, src1 },
            OpOf::VMaxF32 { dst, src0, src1 } => OpOf::VMaxF32 { dst, src0, src1 },
            OpOf::VMinF32 { dst, src0, src1 } => OpOf::VMinF32 { dst, src0, src1 },
            OpOf::VMinU32 { dst, src0, src1 } => OpOf::VMinU32 { dst, src0, src1 },
            OpOf::VAddU32 { dst, src0, src1 } => OpOf::VAddU32 { dst, src0, src1 },
            OpOf::VSubU32 { dst, src0, src1 } => OpOf::VSubU32 { dst, src0, src1 },
            OpOf::VAndB32 { dst, src0, src1 } => OpOf::VAndB32 { dst, src0, src1 },
            OpOf::VOrB32 { dst, src0, src1 } => OpOf::VOrB32 { dst, src0, src1 },
            OpOf::VXorB32 { dst, src0, src1 } => OpOf::VXorB32 { dst, src0, src1 },
            OpOf::VFmaF32 { dst, src0, src1, src2 } => OpOf::VFmaF32 { dst, src0, src1, src2 },
            OpOf::VMov { dst, src } => OpOf::VMov { dst, src },
            OpOf::VMovFromSgpr { dst, src } => OpOf::VMovFromSgpr { dst, src },
            OpOf::VMulLoU32 { dst, src0, src1 } => OpOf::VMulLoU32 { dst, src0, src1 },
            OpOf::VLshlrevB32 { dst, shift, src } => OpOf::VLshlrevB32 { dst, shift, src },
            OpOf::VLshrrevB32 { dst, shift, src } => OpOf::VLshrrevB32 { dst, shift, src },
            OpOf::VLshrrevB32Vgpr { dst, shift, src } => OpOf::VLshrrevB32Vgpr { dst, shift, src },
            OpOf::VAndOrB32 { dst, src0, literal, src2 } => OpOf::VAndOrB32 {
                dst,
                src0,
                literal,
                src2,
            },
            OpOf::VReadfirstlane { dst, src } => OpOf::VReadfirstlane { dst, src },
            OpOf::CvtPkBf16F32 { dst, src0, src1 } => OpOf::CvtPkBf16F32 { dst, src0, src1 },
            OpOf::VCvtF32U32 { dst, src } => OpOf::VCvtF32U32 { dst, src },
            OpOf::VCvtU32F32 { dst, src } => OpOf::VCvtU32F32 { dst, src },
            OpOf::VPermlanex16B32 { dst, src } => OpOf::VPermlanex16B32 { dst, src },
            OpOf::VRsqF32 { dst, src } => OpOf::VRsqF32 { dst, src },
            OpOf::VExpF32 { dst, src } => OpOf::VExpF32 { dst, src },
            OpOf::VSinF32 { dst, src } => OpOf::VSinF32 { dst, src },
            OpOf::VCosF32 { dst, src } => OpOf::VCosF32 { dst, src },
            OpOf::VRcpF32 { dst, src } => OpOf::VRcpF32 { dst, src },
            OpOf::VSqrtF32 { dst, src } => OpOf::VSqrtF32 { dst, src },
            OpOf::VLog2F32 { dst, src } => OpOf::VLog2F32 { dst, src },
            OpOf::VAddCo { dst, src0, src1 } => OpOf::VAddCo { dst, src0, src1 },
            OpOf::VAddCoCi { dst, src } => OpOf::VAddCoCi { dst, src },
            OpOf::VAddCOU32 { dst, src0, src1 } => OpOf::VAddCOU32 { dst, src0, src1 },
            OpOf::VAddCCU32 { dst, src } => OpOf::VAddCCU32 { dst, src },
            OpOf::VCmpLtU32 { src0, src1 } => OpOf::VCmpLtU32 { src0, src1 },
            OpOf::VCmpGeU32 { src0, src1 } => OpOf::VCmpGeU32 { src0, src1 },
            OpOf::VCmpGtU32 { src0, src1 } => OpOf::VCmpGtU32 { src0, src1 },
            OpOf::VCmpEqU32 { src0, src1 } => OpOf::VCmpEqU32 { src0, src1 },
            OpOf::VCmpEqF32 { src0, src1 } => OpOf::VCmpEqF32 { src0, src1 },
            OpOf::VCmpGtF32 { src0, src1 } => OpOf::VCmpGtF32 { src0, src1 },
            OpOf::VCmpLtF32 { src0, src1 } => OpOf::VCmpLtF32 { src0, src1 },
            OpOf::VCmpGeF32 { src0, src1 } => OpOf::VCmpGeF32 { src0, src1 },
            OpOf::VCmpGtF32Imm0 { src } => OpOf::VCmpGtF32Imm0 { src },
            OpOf::VCmpGtU32Imm { src, imm } => OpOf::VCmpGtU32Imm { src, imm },
            OpOf::VCmpEqU32Imm { src, imm } => OpOf::VCmpEqU32Imm { src, imm },
            OpOf::VCmpGeI32 { src0, src1 } => OpOf::VCmpGeI32 { src0, src1 },
            OpOf::VCndmaskB32 { dst, src_false, src_true } => OpOf::VCndmaskB32 {
                dst,
                src_false,
                src_true,
            },
            OpOf::SAddU32 { dst, src0, src1 } => OpOf::SAddU32 { dst, src0, src1 },
            OpOf::SAddcU32 { dst, src0, src1 } => OpOf::SAddcU32 { dst, src0, src1 },
            OpOf::SSubU32 { dst, src0, src1 } => OpOf::SSubU32 { dst, src0, src1 },
            OpOf::SAndB32 { dst, src0, src1 } => OpOf::SAndB32 { dst, src0, src1 },
            OpOf::SMulI32 { dst, src0, src1 } => OpOf::SMulI32 { dst, src0, src1 },
            OpOf::SLshlB32 { dst, src, shift } => OpOf::SLshlB32 { dst, src, shift },
            OpOf::SLshrB32 { dst, src, shift } => OpOf::SLshrB32 { dst, src, shift },
            OpOf::SMov { dst, src } => OpOf::SMov { dst, src },
            OpOf::SCmpLtU32 { src0, src1 } => OpOf::SCmpLtU32 { src0, src1 },
            OpOf::SCmpGeU32 { src0, src1 } => OpOf::SCmpGeU32 { src0, src1 },
            OpOf::SCmpEqU32 { src0, src1 } => OpOf::SCmpEqU32 { src0, src1 },
            OpOf::ClearVcc => OpOf::ClearVcc,
            OpOf::SMovToVcc { src } => OpOf::SMovToVcc { src },
            OpOf::Wmma { dst, a, b, c, format } => OpOf::Wmma { dst, a, b, c, format },
            OpOf::DsSwizzle { dst, src, offset } => OpOf::DsSwizzle { dst, src, offset },
            OpOf::WaveReduceAddF32 { val, tmp } => OpOf::WaveReduceAddF32 { val, tmp },
            OpOf::WaveReduceMaxF32 { val, tmp } => OpOf::WaveReduceMaxF32 { val, tmp },
            OpOf::WaveReduceMinF32 { val, tmp } => OpOf::WaveReduceMinF32 { val, tmp },
            OpOf::SaveExec { dst } => OpOf::SaveExec { dst },
            OpOf::RestoreExec { src } => OpOf::RestoreExec { src },
            OpOf::XorExec { saved } => OpOf::XorExec { saved },
            OpOf::Label(text) => OpOf::Label(text@),
            OpOf::Branch(text) => OpOf::Branch(text@),
            OpOf::BranchScc0(text) => OpOf::BranchScc0(text@),
            OpOf::BranchScc1(text) => OpOf::BranchScc1(text@),
            OpOf::BranchVccz(text) => OpOf::BranchVccz(text@),
            OpOf::Barrier => OpOf::Barrier,
            OpOf::SBarrier => OpOf::SBarrier,
            OpOf::WaitVmcnt(n) => OpOf::WaitVmcnt(n),
            OpOf::WaitLgkmcnt(n) => OpOf::WaitLgkmcnt(n),
            OpOf::WaitVscnt(n) => OpOf::WaitVscnt(n),
            OpOf::Endpgm => OpOf::Endpgm,
            OpOf::CaptureTgid { dst, axis } => OpOf::CaptureTgid { dst, axis },
            OpOf::ComputeGlobalIdX { dst, wg_size } => OpOf::ComputeGlobalIdX { dst, wg_size },
            OpOf::ReadShaderCycles { dst } => OpOf::ReadShaderCycles { dst },
            OpOf::RawAsm(text) => OpOf::RawAsm(text@),
        }
    }
}

impl Clone for Op {
    /// The same operation.
    fn clone(&self) -> (r: Self)
        ensures
            r == *self,
    {
        match self {
            OpOf::GlobalLoad { dst, addr, width, offset } => OpOf::GlobalLoad {
                dst: *dst,
                addr: *addr,
                width: *width,
                offset: *offset,
            },
            OpOf::GlobalStore { addr, src, width, offset } => OpOf::GlobalStore {
                addr: *addr,
                src: *src,
                width: *width,
                offset: *offset,
            },
            OpOf::BufferLoad { dst, voffset, srsrc, width, offset, soffset } => OpOf::BufferLoad {
                dst: *dst,
                voffset: *voffset,
                srsrc: *srsrc,
                width: *width,
                offset: *offset,
                soffset: *soffset,
            },
            OpOf::BufferStore { voffset, src, srsrc, width, offset, soffset } => OpOf::BufferStore {
                voffset: *voffset,
                src: *src,
                srsrc: *srsrc,
                width: *width,
                offset: *offset,
                soffset: *soffset,
            },
            OpOf::GlobalAtomicAddF32 { addr, src, offset } => OpOf::GlobalAtomicAddF32 {
                addr: *addr,
                src: *src,
                offset: *offset,
            },
            OpOf::GlobalAtomicAddU32Rtn { dst, addr, src } => OpOf::GlobalAtomicAddU32Rtn {
                dst: *dst,
                addr: *addr,
                src: *src,
            },
            OpOf::BufferWbl2 { addr } => OpOf::BufferWbl2 { addr: *addr },
            OpOf::LdsLoad { dst, addr, width, offset } => OpOf::LdsLoad {
                dst: *dst,
                addr: *addr,
                width: *width,
                offset: *offset,
            },
            OpOf::LdsStore { addr, src, width, offset } => OpOf::LdsStore {
                addr: *addr,
                src: *src,
                width: *width,
                offset: *offset,
            },
            OpOf::DsStoreB16 { vaddr, src, offset } => OpOf::DsStoreB16 {
                vaddr: *vaddr,
                src: *src,
                offset: *offset,
            },
            OpOf::DsStoreB32 { vaddr, src, offset } => OpOf::DsStoreB32 {
                vaddr: *vaddr,
                src: *src,
                offset: *offset,
            },
            OpOf::DsStoreB64 { vaddr, src, offset } => OpOf::DsStoreB64 {
                vaddr: *vaddr,
                src: *src,
                offset: *offset,
            },
            OpOf::DsStoreB128 { vaddr, src, offset } => OpOf::DsStoreB128 {
                vaddr: *vaddr,
                src: *src,
                offset: *offset,
            },
            OpOf::DsLoadB32 { dst, vaddr, offset } => OpOf::DsLoadB32 {
                dst: *dst,
                vaddr: *vaddr,
                offset: *offset,
            },
            OpOf::DsLoadB64 { dst, vaddr, offset } => OpOf::DsLoadB64 {
                dst: *dst,
                vaddr: *vaddr,
                offset: *offset,
            },
            OpOf::DsLoadB128 { dst, vaddr, offset } => OpOf::DsLoadB128 {
                dst: *dst,
                vaddr: *vaddr,
                offset: *offset,
            },
            OpOf::DsLoadU16 { dst, vaddr, offset } => OpOf::DsLoadU16 {
                dst: *dst,
                vaddr: *vaddr,
                offset: *offset,
            },
            OpOf::DsLoadU16D16 { dst, vaddr, offset } => OpOf::DsLoadU16D16 {
                dst: *dst,
                vaddr: *vaddr,
                offset: *offset,
            },
            OpOf::DsLoadU16D16Hi { dst, vaddr, offset } => OpOf::DsLoadU16D16Hi {
                dst: *dst,
                vaddr: *vaddr,
                offset: *offset,
            },
            OpOf::ScalarLoad { dst, base, offset, width } => OpOf::ScalarLoad {
                dst: *dst,
                base: *base,
                offset: *offset,
                width: *width,
            },
            OpOf::SMemLoadDword { dst, base_lo, base_hi, offset } => OpOf::SMemLoadDword {
                dst: *dst,
                base_lo: *base_lo,
                base_hi: *base_hi,
                offset: *offset,
            },
            OpOf::VAddF32 { dst, src0, src1 } => OpOf::VAddF32 {
                dst: *dst,
                src0: *src0,
                src1: *src1,
            },
            OpOf::VMulF32 { dst, src0, src1 } => OpOf::VMulF32 {
                dst: *dst,
                src0: *src0,
                src1: *src1,
            },
            OpOf::VSubF32 { dst, src0, src1 } => OpOf::VSubF32 {
                dst: *dst,
                src0: *src0,
                src1: *src1,
            },
            OpOf::VMaxF32 { dst, src0, src1 } => OpOf::VMaxF32 {
                dst: *dst,
                src0: *src0,
                src1: *src1,
            },
            OpOf::VMinF32 { dst, src0, src1 } => OpOf::VMinF32 {
                dst: *dst,
                src0: *src0,
                src1: *src1,
            },
            OpOf::VMinU32 { dst, src0, src1 } => OpOf::VMinU32 {
                dst: *dst,
                src0: *src0,
                src1: *src1,
            },
            OpOf::VAddU32 { dst, src0, src1 } => OpOf::VAddU32 {
                dst: *dst,
                src0: *src0,
                src1: *src1,
            },
            OpOf::VSubU32 { dst, src0, src1 } => OpOf::VSubU32 {
                dst: *dst,
                src0: *src0,
                src1: *src1,
            },
            OpOf::VAndB32 { dst, src0, src1 } => OpOf::VAndB32 {
                dst: *dst,
                src0: *src0,
                src1: *src1,
            },
            OpOf::VOrB32 { dst, src0, src1 } => OpOf::VOrB32 {
                dst: *dst,
                src0: *src0,
                src1: *src1,
            },
            OpOf::VXorB32 { dst, src0, src1 } => OpOf::VXorB32 {
                dst: *dst,
                src0: *src0,
                src1: *src1,
            },
            OpOf::VFmaF32 { dst, src0, src1, src2 } => OpOf::VFmaF32 {
                dst: *dst,
                src0: *src0,
                src1: *src1,
                src2: *src2,
            },
            OpOf::VMov { dst, src } => OpOf::VMov { dst: *dst, src: *src },
            OpOf::VMovFromSgpr { dst, src } => OpOf::VMovFromSgpr { dst: *dst, src: *src },
            OpOf::VMulLoU32 { dst, src0, src1 } => OpOf::VMulLoU32 {
                dst: *dst,
                src0: *src0,
                src1: *src1,
            },
            OpOf::VLshlrevB32 { dst, shift, src } => OpOf::VLshlrevB32 {
                dst: *dst,
                shift: *shift,
                src: *src,
            },
            OpOf::VLshrrevB32 { dst, shift, src } => OpOf::VLshrrevB32 {
                dst: *dst,
                shift: *shift,
                src: *src,
            },
            OpOf::VLshrrevB32Vgpr { dst, shift, src } => OpOf::VLshrrevB32Vgpr {
                dst: *dst,
                shift: *shift,
                src: *src,
            },
            OpOf::VAndOrB32 { dst, src0, literal, src2 } => OpOf::VAndOrB32 {
                dst: *dst,
                src0: *src0,
                literal: *literal,
                src2: *src2,
            },
            OpOf::VReadfirstlane { dst, src } => OpOf::VReadfirstlane { dst: *dst, src: *src },
            OpOf::CvtPkBf16F32 { dst, src0, src1 } => OpOf::CvtPkBf16F32 {
                dst: *dst,
                src0: *src0,
                src1: *src1,
            },
            OpOf::VCvtF32U32 { dst, src } => OpOf::VCvtF32U32 { dst: *dst, src: *src },
            OpOf::VCvtU32F32 { dst, src } => OpOf::VCvtU32F32 { dst: *dst, src: *src },
            OpOf::VPermlanex16B32 { dst, src } => OpOf::VPermlanex16B32 { dst: *dst, src: *src },
            OpOf::VRsqF32 { dst, src } => OpOf::VRsqF32 { dst: *dst, src: *src },
            OpOf::VExpF32 { dst, src } => OpOf::VExpF32 { dst: *dst, src: *src },
            OpOf::VSinF32 { dst, src } => OpOf::VSinF32 { dst: *dst, src: *src },
            OpOf::VCosF32 { dst, src } => OpOf::VCosF32 { dst: *dst, src: *src },
            OpOf::VRcpF32 { dst, src } => OpOf::VRcpF32 { dst: *dst, src: *src },
            OpOf::VSqrtF32 { dst, src } => OpOf::VSqrtF32 { dst: *dst, src: *src },
            OpOf::VLog2F32 { dst, src } => OpOf::VLog2F32 { dst: *dst, src: *src },
            OpOf::VAddCo { dst, src0, src1 } => OpOf::VAddCo {
                dst: *dst,
                src0: *src0,
                src1: *src1,
            },
            OpOf::VAddCoCi { dst, src } => OpOf::VAddCoCi { dst: *dst, src: *src },
            OpOf::VAddCOU32 { dst, src0, src1 } => OpOf::VAddCOU32 {
                dst: *dst,
                src0: *src0,
                src1: *src1,
            },
            OpOf::VAddCCU32 { dst, src } => OpOf::VAddCCU32 { dst: *dst, src: *src },
            OpOf::VCmpLtU32 { src0, src1 } => OpOf::VCmpLtU32 { src0: *src0, src1: *src1 },
            OpOf::VCmpGeU32 { src0, src1 } => OpOf::VCmpGeU32 { src0: *src0, src1: *src1 },
            OpOf::VCmpGtU32 { src0, src1 } => OpOf::VCmpGtU32 { src0: *src0, src1: *src1 },
            OpOf::VCmpEqU32 { src0, src1 } => OpOf::VCmpEqU32 { src0: *src0, src1: *src1 },
            OpOf::VCmpEqF32 { src0, src1 } => OpOf::VCmpEqF32 { src0: *src0, src1: *src1 },
            OpOf::VCmpGtF32 { src0, src1 } => OpOf::VCmpGtF32 { src0: *src0, src1: *src1 },
            OpOf::VCmpLtF32 { src0, src1 } => OpOf::VCmpLtF32 { src0: *src0, src1: *src1 },
            OpOf::VCmpGeF32 { src0, src1 } => OpOf::VCmpGeF32 { src0: *src0, src1: *src1 },
            OpOf::VCmpGtF32Imm0 { src } => OpOf::VCmpGtF32Imm0 { src: *src },
            OpOf::VCmpGtU32Imm { src, imm } => OpOf::VCmpGtU32Imm { src: *src, imm: *imm },
            OpOf::VCmpEqU32Imm { src, imm } => OpOf::VCmpEqU32Imm { src: *src, imm: *imm },
            OpOf::VCmpGeI32 { src0, src1 } => OpOf::VCmpGeI32 { src0: *src0, src1: *src1 },
            OpOf::VCndmaskB32 { dst, src_false, src_true } => OpOf::VCndmaskB32 {
                dst: *dst,
                src_false: *src_false,
                src_true: *src_true,
            },
            OpOf::SAddU32 { dst, src0, src1 } => OpOf::SAddU32 {
                dst: *dst,
                src0: *src0,
                src1: *src1,
            },
            OpOf::SAddcU32 { dst, src0, src1 } => OpOf::SAddcU32 {
                dst: *dst,
                src0: *src0,
                src1: *src1,
            },
            OpOf::SSubU32 { dst, src0, src1 } => OpOf::SSubU32 {
                dst: *dst,
                src0: *src0,
                src1: *src1,
            },
            OpOf::SAndB32 { dst, src0, src1 } => OpOf::SAndB32 {
                dst: *dst,
                src0: *src0,
                src1: *src1,
            },
            OpOf::SMulI32 { dst, src0, src1 } => OpOf::SMulI32 {
                dst: *dst,
                src0: *src0,
                src1: *src1,
            },
            OpOf::SLshlB32 { dst, src, shift } => OpOf::SLshlB32 {
                dst: *dst,
                src: *src,
                shift: *shift,
            },
            OpOf::SLshrB32 { dst, src, shift } => OpOf::SLshrB32 {
                dst: *dst,
                src: *src,
                shift: *shift,
            },
            OpOf::SMov { dst, src } => OpOf::SMov { dst: *dst, src: *src },
            OpOf::SCmpLtU32 { src0, src1 } => OpOf::SCmpLtU32 { src0: *src0, src1: *src1 },
            OpOf::SCmpGeU32 { src0, src1 } => OpOf::SCmpGeU32 { src0: *src0, src1: *src1 },
            OpOf::SCmpEqU32 { src0, src1 } => OpOf::SCmpEqU32 { src0: *src0, src1: *src1 },
            OpOf::ClearVcc => OpOf::ClearVcc,
            OpOf::SMovToVcc { src } => OpOf::SMovToVcc { src: *src },
            OpOf::Wmma { dst, a, b, c, format } => OpOf::Wmma {
                dst: *dst,
                a: *a,
                b: *b,
                c: *c,
                format: *format,
            },
            OpOf::DsSwizzle { dst, src, offset } => OpOf::DsSwizzle {
                dst: *dst,
                src: *src,
                offset: *offset,
            },
            OpOf::WaveReduceAddF32 { val, tmp } => OpOf::WaveReduceAddF32 { val: *val, tmp: *tmp },
            OpOf::WaveReduceMaxF32 { val, tmp } => OpOf::WaveReduceMaxF32 { val: *val, tmp: *tmp },
            OpOf::WaveReduceMinF32 { val, tmp } => OpOf::WaveReduceMinF32 { val: *val, tmp: *tmp },
            OpOf::SaveExec { dst } => OpOf::SaveExec { dst: *dst },
            OpOf::RestoreExec { src } => OpOf::RestoreExec { src: *src },
            OpOf::XorExec { saved } => OpOf::XorExec { saved: *saved },
            OpOf::Label(text) => OpOf::Label(text.clone()),
            OpOf::Branch(text) => OpOf::Branch(text.clone()),
            OpOf::BranchScc0(text) => OpOf::BranchScc0(text.clone()),
            OpOf::BranchScc1(text) => OpOf::BranchScc1(text.clone()),
            OpOf::BranchVccz(text) => OpOf::BranchVccz(text.clone()),
            OpOf::Barrier => OpOf::Barrier,
            OpOf::SBarrier => OpOf::SBarrier,
            OpOf::WaitVmcnt(n) => OpOf::WaitVmcnt(*n),
            OpOf::WaitLgkmcnt(n) => OpOf::WaitLgkmcnt(*n),
            OpOf::WaitVscnt(n) => OpOf::WaitVscnt(*n),
            OpOf::Endpgm => OpOf::Endpgm,
            OpOf::CaptureTgid { dst, axis } => OpOf::CaptureTgid { dst: *dst, axis: *axis },
            OpOf::ComputeGlobalIdX { dst, wg_size } => OpOf::ComputeGlobalIdX {
                dst: *dst,
                wg_size: *wg_size,
            },
            OpOf::ReadShaderCycles { dst } => OpOf::ReadShaderCycles { dst: *dst },
            OpOf::RawAsm(text) => OpOf::RawAsm(text.clone()),
        }
    }
}

/// The vector registers that an operation writes, a wide access counting every register of
/// its range.
pub open spec fn op_vreg_defs<S>(op: OpOf<S>) -> Seq<VReg> {
    match op {
        OpOf::GlobalLoad { dst, width, .. }
        | OpOf::BufferLoad { dst, width, .. }
        | OpOf::LdsLoad { dst, width, .. } => vregs(dst, width.regs()),
        OpOf::GlobalAtomicAddU32Rtn { dst, .. }
        | OpOf::DsLoadB32 { dst, .. }
        | OpOf::DsLoadU16 { dst, .. }
        | OpOf::DsLoadU16D16 { dst, .. }
        | OpOf::DsLoadU16D16Hi { dst, .. }
        | OpOf::VAddF32 { dst, .. }
        | OpOf::VMulF32 { dst, .. }
        | OpOf::VSubF32 { dst, .. }
        | OpOf::VMaxF32 { dst, .. }
        | OpOf::VMinF32 { dst, .. }
        | OpOf::VMinU32 { dst, .. }
        | OpOf::VAddU32 { dst, .. }
        | OpOf::VSubU32 { dst, .. }
        | OpOf::VAndB32 { dst, .. }
        | OpOf::VOrB32 { dst, .. }
        | OpOf::VXorB32 { dst, .. }
        | OpOf::VFmaF32 { dst, .. }
        | OpOf::VMov { dst, .. }
        | OpOf::VMovFromSgpr { dst, .. }
        | OpOf::VMulLoU32 { dst, .. }
        | OpOf::VLshlrevB32 { dst, .. }
        | OpOf::VLshrrevB32 { dst, .. }
        | OpOf::VLshrrevB32Vgpr { dst, .. }
        | OpOf::VAndOrB32 { dst, .. }
        | OpOf::CvtPkBf16F32 { dst, .. }
        | OpOf::VCvtF32U32 { dst, .. }
        | OpOf::VCvtU32F32 { dst, .. }
        | OpOf::VPermlanex16B32 { dst, .. }
        | OpOf::VRsqF32 { dst, .. }
        | OpOf::VExpF32 { dst, .. }
        | OpOf::VSinF32 { dst, .. }
        | OpOf::VCosF32 { dst, .. }
        | OpOf::VRcpF32 { dst, .. }
        | OpOf::VSqrtF32 { dst, .. }
        | OpOf::VLog2F32 { dst, .. }
        | OpOf::VAddCo { dst, .. }
        | OpOf::VAddCoCi { dst, .. }
        | OpOf::VAddCOU32 { dst, .. }
        | OpOf::VAddCCU32 { dst, .. }
        | OpOf::VCndmaskB32 { dst, .. }
        | OpOf::DsSwizzle { dst, .. }
        | OpOf::ComputeGlobalIdX { dst, .. }
        | OpOf::ReadShaderCycles { dst } => seq![dst],
        OpOf::DsLoadB64 { dst, .. } => vregs(dst, 2),
        OpOf::DsLoadB128 { dst, .. } => vregs(dst, 4),
        OpOf::Wmma { dst, .. } => vregs(dst, 8),
        OpOf::WaveReduceAddF32 { val, tmp }
        | OpOf::WaveReduceMaxF32 { val, tmp }
        | OpOf::WaveReduceMinF32 { val, tmp } => seq![val] + seq![tmp],
        _ => Seq::empty(),
    }
}

/// The vector registers that an operation reads.
pub open spec fn op_vreg_uses<S>(op: OpOf<S>) -> Seq<VReg> {
    match op {
        OpOf::GlobalLoad { addr, .. } => vregs(addr, 2),
        OpOf::GlobalStore { addr, src, width, .. } => vregs(addr, 2) + vregs(src, width.regs()),
        OpOf::BufferLoad { voffset, .. } => seq![voffset],
        OpOf::BufferStore { voffset, src, width, .. } => seq![voffset] + vregs(src, width.regs()),
        OpOf::GlobalAtomicAddF32 { addr, src, .. }
        | OpOf::GlobalAtomicAddU32Rtn { addr, src, .. } => vregs(addr, 2) + seq![src],
        OpOf::BufferWbl2 { addr }
        | OpOf::LdsLoad { addr, .. } => seq![addr],
        OpOf::LdsStore { addr, src, width, .. } => seq![addr] + vregs(src, width.regs()),
        OpOf::DsStoreB16 { vaddr, src, .. }
        | OpOf::DsStoreB32 { vaddr, src, .. } => seq![vaddr] + seq![src],
        OpOf::DsStoreB64 { vaddr, src, .. } => seq![vaddr] + vregs(src, 2),
        OpOf::DsStoreB128 { vaddr, src, .. } => seq![vaddr] + vregs(src, 4),
        OpOf::DsLoadB32 { vaddr, .. }
        | OpOf::DsLoadB64 { vaddr, .. }
        | OpOf::DsLoadB128 { vaddr, .. }
        | OpOf::DsLoadU16 { vaddr, .. } => seq![vaddr],
        OpOf::DsLoadU16D16 { dst, vaddr, .. }
        | OpOf::DsLoadU16D16Hi { dst, vaddr, .. } => seq![dst] + seq![vaddr],
        OpOf::VAddF32 { src0, src1, .. }
        | OpOf::VMulF32 { src0, src1, .. }
        | OpOf::VSubF32 { src0, src1, .. }
        | OpOf::VMaxF32 { src0, src1, .. }
        | OpOf::VMinF32 { src0, src1, .. }
        | OpOf::VMinU32 { src0, src1, .. }
        | OpOf::VAddU32 { src0, src1, .. }
        | OpOf::VSubU32 { src0, src1, .. }
        | OpOf::VAndB32 { src0, src1, .. }
        | OpOf::VOrB32 { src0, src1, .. }
        | OpOf::VXorB32 { src0, src1, .. }
        | OpOf::VCmpLtU32 { src0, src1 }
        | OpOf::VCmpGeU32 { src0, src1 }
        | OpOf::VCmpGtU32 { src0, src1 }
        | OpOf::VCmpEqU32 { src0, src1 }
        | OpOf::VCmpEqF32 { src0, src1 }
        | OpOf::VCmpGtF32 { src0, src1 }
        | OpOf::VCmpLtF32 { src0, src1 }
        | OpOf::VCmpGeF32 { src0, src1 } => operand_vregs(src0) + operand_vregs(src1),
        OpOf::VFmaF32 {
            src0,
            src1,
            src2,
            ..
        } => operand_vregs(src0) + operand_vregs(src1) + operand_vregs(src2),
        OpOf::VMov { src, .. } => operand_vregs(src),
        OpOf::VMulLoU32 { src0, src1, .. }
        | OpOf::CvtPkBf16F32 { src0, src1, .. }
        | OpOf::VAddCo { src0, src1, .. }
        | OpOf::VAddCOU32 { src0, src1, .. }
        | OpOf::VCmpGeI32 { src0, src1 } => seq![src0] + seq![src1],
        OpOf::VLshlrevB32 { src, .. }
        | OpOf::VLshrrevB32 { src, .. }
        | OpOf::VReadfirstlane { src, .. }
        | OpOf::VCvtF32U32 { src, .. }
        | OpOf::VCvtU32F32 { src, .. }
        | OpOf::VPermlanex16B32 { src, .. }
        | OpOf::VRsqF32 { src, .. }
        | OpOf::VExpF32 { src, .. }
        | OpOf::VSinF32 { src, .. }
        | OpOf::VCosF32 { src, .. }
        | OpOf::VRcpF32 { src, .. }
        | OpOf::VSqrtF32 { src, .. }
        | OpOf::VLog2F32 { src, .. }
        | OpOf::VAddCoCi { src, .. }
        | OpOf::VAddCCU32 { src, .. }
        | OpOf::VCmpGtF32Imm0 { src }
        | OpOf::VCmpGtU32Imm { src, .. }
        | OpOf::VCmpEqU32Imm { src, .. }
        | OpOf::DsSwizzle { src, .. } => seq![src],
        OpOf::VLshrrevB32Vgpr { shift, src, .. } => seq![shift] + seq![src],
        OpOf::VAndOrB32 { src0, src2, .. } => seq![src0] + seq![src2],
        OpOf::VCndmaskB32 {
            src_false,
            src_true,
            ..
        } => operand_vregs(src_false) + operand_vregs(src_true),
        OpOf::Wmma { a, b, c, .. } => vregs(a, 8) + vregs(b, 8) + vregs(c, 8),
        OpOf::WaveReduceAddF32 { val, .. }
        | OpOf::WaveReduceMaxF32 { val, .. }
        | OpOf::WaveReduceMinF32 { val, .. } => seq![val],
        _ => Seq::empty(),
    }
}

/// The scalar registers that an operation writes.
pub open spec fn op_sreg_defs<S>(op: OpOf<S>) -> Seq<SReg> {
    match op {
        OpOf::ScalarLoad { dst, width, .. } => sregs(dst, width.regs()),
        OpOf::SMemLoadDword { dst, .. }
        | OpOf::VReadfirstlane { dst, .. }
        | OpOf::SAddU32 { dst, .. }
        | OpOf::SAddcU32 { dst, .. }
        | OpOf::SSubU32 { dst, .. }
        | OpOf::SAndB32 { dst, .. }
        | OpOf::SMulI32 { dst, .. }
        | OpOf::SLshlB32 { dst, .. }
        | OpOf::SLshrB32 { dst, .. }
        | OpOf::SMov { dst, .. }
        | OpOf::SaveExec { dst }
        | OpOf::CaptureTgid { dst, .. } => seq![dst],
        _ => Seq::empty(),
    }
}

/// The scalar registers that an operation reads.
pub open spec fn op_sreg_uses<S>(op: OpOf<S>) -> Seq<SReg> {
    match op {
        OpOf::BufferLoad { srsrc, soffset, .. }
        | OpOf::BufferStore { srsrc, soffset, .. } => sregs(srsrc, 4) + soffset_sregs(soffset),
        OpOf::ScalarLoad { base, .. } => sregs(SReg(base.0), 2),
        OpOf::SMemLoadDword { base_lo, base_hi, .. } => seq![base_lo] + seq![base_hi],
        OpOf::VMovFromSgpr { src, .. }
        | OpOf::SLshlB32 { src, .. }
        | OpOf::SLshrB32 { src, .. }
        | OpOf::SMovToVcc { src }
        | OpOf::RestoreExec { src } => seq![src],
        OpOf::SAddU32 { src0, src1, .. }
        | OpOf::SAddcU32 { src0, src1, .. }
        | OpOf::SSubU32 { src0, src1, .. }
        | OpOf::SAndB32 { src0, src1, .. }
        | OpOf::SCmpEqU32 { src0, src1 } => seq![src0] + soperand_sregs(src1),
        OpOf::SMulI32 { src0, src1, .. }
        | OpOf::SCmpLtU32 { src0, src1 }
        | OpOf::SCmpGeU32 { src0, src1 } => seq![src0] + seq![src1],
        OpOf::SMov { src, .. } => soperand_sregs(src),
        OpOf::XorExec { saved } => seq![saved],
        _ => Seq::empty(),
    }
}

/// Whether an operation reads the vector condition code.
pub open spec fn op_reads_vcc<S>(op: OpOf<S>) -> bool {
    match op {
        OpOf::VAddCoCi { .. }
        | OpOf::VAddCCU32 { .. }
        | OpOf::VCndmaskB32 { .. }
        | OpOf::SaveExec { .. }
        | OpOf::BranchVccz(_)
        | OpOf::RawAsm(_) => true,
        OpOf::SAddU32 { src1, .. }
        | OpOf::SAddcU32 { src1, .. }
        | OpOf::SSubU32 { src1, .. }
        | OpOf::SAndB32 { src1, .. }
        | OpOf::SCmpEqU32 { src1, .. } => src1 is Vcc,
        OpOf::SMov { src, .. } => src is Vcc,
        _ => false,
    }
}

/// Whether an operation writes the vector condition code.
pub open spec fn op_writes_vcc<S>(op: OpOf<S>) -> bool {
    match op {
        OpOf::VAddCo { .. }
        | OpOf::VAddCoCi { .. }
        | OpOf::VAddCOU32 { .. }
        | OpOf::VAddCCU32 { .. }
        | OpOf::VCmpLtU32 { .. }
        | OpOf::VCmpGeU32 { .. }
        | OpOf::VCmpGtU32 { .. }
        | OpOf::VCmpEqU32 { .. }
        | OpOf::VCmpEqF32 { .. }
        | OpOf::VCmpGtF32 { .. }
        | OpOf::VCmpLtF32 { .. }
        | OpOf::VCmpGeF32 { .. }
        | OpOf::VCmpGtF32Imm0 { .. }
        | OpOf::VCmpGtU32Imm { .. }
        | OpOf::VCmpEqU32Imm { .. }
        | OpOf::VCmpGeI32 { .. }
        | OpOf::ClearVcc
        | OpOf::SMovToVcc { .. }
        | OpOf::RawAsm(_) => true,
        _ => false,
    }
}

/// Whether an operation reads the scalar condition code.
pub open spec fn op_reads_scc<S>(op: OpOf<S>) -> bool {
    match op {
        OpOf::SAddcU32 { .. }
        | OpOf::BranchScc0(_)
        | OpOf::BranchScc1(_)
        | OpOf::RawAsm(_) => true,
        _ => false,
    }
}

/// Whether an operation writes the scalar condition code.
pub open spec fn op_writes_scc<S>(op: OpOf<S>) -> bool {
    match op {
        OpOf::SAddU32 { .. }
        | OpOf::SAddcU32 { .. }
        | OpOf::SSubU32 { .. }
        | OpOf::SAndB32 { .. }
        | OpOf::SLshlB32 { .. }
        | OpOf::SLshrB32 { .. }
        | OpOf::SCmpLtU32 { .. }
        | OpOf::SCmpGeU32 { .. }
        | OpOf::SCmpEqU32 { .. }
        | OpOf::SaveExec { .. }
        | OpOf::XorExec { .. }
        | OpOf::RawAsm(_) => true,
        _ => false,
    }
}

/// Whether an operation has an effect besides the registers it writes, so that it keeps its place.
pub open spec fn op_has_side_effects<S>(op: OpOf<S>) -> bool {
    match op {
        OpOf::GlobalStore { .. }
        | OpOf::BufferStore { .. }
        | OpOf::GlobalAtomicAddF32 { .. }
        | OpOf::GlobalAtomicAddU32Rtn { .. }
        | OpOf::BufferWbl2 { .. }
        | OpOf::LdsStore { .. }
        | OpOf::DsStoreB16 { .. }
        | OpOf::DsStoreB32 { .. }
        | OpOf::DsStoreB64 { .. }
        | OpOf::DsStoreB128 { .. }
        | OpOf::SaveExec { .. }
        | OpOf::RestoreExec { .. }
        | OpOf::XorExec { .. }
        | OpOf::Label(_)
        | OpOf::Branch(_)
        | OpOf::BranchScc0(_)
        | OpOf::BranchScc1(_)
        | OpOf::BranchVccz(_)
        | OpOf::Barrier
        | OpOf::SBarrier
        | OpOf::WaitVmcnt(_)
        | OpOf::WaitLgkmcnt(_)
        | OpOf::WaitVscnt(_)
        | OpOf::Endpgm
        | OpOf::ReadShaderCycles { .. }
        | OpOf::RawAsm(_) => true,
        _ => false,
    }
}

impl<S> OpOf<S> {
    /// The vector registers that this operation writes.
    pub fn vreg_defs(&self) -> (r: Vec<VReg>)
        ensures
            r@ == op_vreg_defs(*self),
    {
        let mut r: Vec<VReg> = Vec::new();
        match self {
            OpOf::GlobalLoad { dst, width, .. }
            | OpOf::BufferLoad { dst, width, .. }
            | OpOf::LdsLoad { dst, width, .. } => {
                push_vregs(&mut r, *dst, width.vreg_count());
            },
            OpOf::GlobalAtomicAddU32Rtn { dst, .. }
            | OpOf::DsLoadB32 { dst, .. }
            | OpOf::DsLoadU16 { dst, .. }
            | OpOf::DsLoadU16D16 { dst, .. }
            | OpOf::DsLoadU16D16Hi { dst, .. }
            | OpOf::VAddF32 { dst, .. }
            | OpOf::VMulF32 { dst, .. }
            | OpOf::VSubF32 { dst, .. }
            | OpOf::VMaxF32 { dst, .. }
            | OpOf::VMinF32 { dst, .. }
            | OpOf::VMinU32 { dst, .. }
            | OpOf::VAddU32 { dst, .. }
            | OpOf::VSubU32 { dst, .. }
            | OpOf::VAndB32 { dst, .. }
            | OpOf::VOrB32 { dst, .. }
            | OpOf::VXorB32 { dst, .. }
            | OpOf::VFmaF32 { dst, .. }
            | OpOf::VMov { dst, .. }
            | OpOf::VMovFromSgpr { dst, .. }
            | OpOf::VMulLoU32 { dst, .. }
            | OpOf::VLshlrevB32 { dst, .. }
            | OpOf::VLshrrevB32 { dst, .. }
            | OpOf::VLshrrevB32Vgpr { dst, .. }
            | OpOf::VAndOrB32 { dst, .. }
            | OpOf::CvtPkBf16F32 { dst, .. }
            | OpOf::VCvtF32U32 { dst, .. }
            | OpOf::VCvtU32F32 { dst, .. }
            | OpOf::VPermlanex16B32 { dst, .. }
            | OpOf::VRsqF32 { dst, .. }
            | OpOf::VExpF32 { dst, .. }
            | OpOf::VSinF32 { dst, .. }
            | OpOf::VCosF32 { dst, .. }
            | OpOf::VRcpF32 { dst, .. }
            | OpOf::VSqrtF32 { dst, .. }
            | OpOf::VLog2F32 { dst, .. }
            | OpOf::VAddCo { dst, .. }
            | OpOf::VAddCoCi { dst, .. }
            | OpOf::VAddCOU32 { dst, .. }
            | OpOf::VAddCCU32 { dst, .. }
            | OpOf::VCndmaskB32 { dst, .. }
            | OpOf::DsSwizzle { dst, .. }
            | OpOf::ComputeGlobalIdX { dst, .. }
            | OpOf::ReadShaderCycles { dst } => {
                r.push(*dst);
            },
            OpOf::DsLoadB64 { dst, .. } => {
                push_vregs(&mut r, *dst, 2);
            },
            OpOf::DsLoadB128 { dst, .. } => {
                push_vregs(&mut r, *dst, 4);
            },
            OpOf::Wmma { dst, .. } => {
                push_vregs(&mut r, *dst, 8);
            },
            OpOf::WaveReduceAddF32 { val, tmp }
            | OpOf::WaveReduceMaxF32 { val, tmp }
            | OpOf::WaveReduceMinF32 { val, tmp } => {
                r.push(*val);
                r.push(*tmp);
            },
            _ => {},
        }
        assert(r@ =~= op_vreg_defs(*self));
        r
    }

    /// The vector registers that this operation reads.
    pub fn vreg_uses(&self) -> (r: Vec<VReg>)
        ensures
            r@ == op_vreg_uses(*self),
    {
        let mut r: Vec<VReg> = Vec::new();
        match self {
            OpOf::GlobalLoad { addr, .. } => {
                push_vregs(&mut r, *addr, 2);
            },
            OpOf::GlobalStore { addr, src, width, .. } => {
                push_vregs(&mut r, *addr, 2);
                push_vregs(&mut r, *src, width.vreg_count());
            },
            OpOf::BufferLoad { voffset, .. } => {
                r.push(*voffset);
            },
            OpOf::BufferStore { voffset, src, width, .. } => {
                r.push(*voffset);
                push_vregs(&mut r, *src, width.vreg_count());
            },
            OpOf::GlobalAtomicAddF32 { addr, src, .. }
            | OpOf::GlobalAtomicAddU32Rtn { addr, src, .. } => {
                push_vregs(&mut r, *addr, 2);
                r.push(*src);
            },
            OpOf::BufferWbl2 { addr }
            | OpOf::LdsLoad { addr, .. } => {
                r.push(*addr);
            },
            OpOf::LdsStore { addr, src, width, .. } => {
                r.push(*addr);
                push_vregs(&mut r, *src, width.vreg_count());
            },
            OpOf::DsStoreB16 { vaddr, src, .. }
            | OpOf::DsStoreB32 { vaddr, src, .. } => {
                r.push(*vaddr);
                r.push(*src);
            },
            OpOf::DsStoreB64 { vaddr, src, .. } => {
                r.push(*vaddr);
                push_vregs(&mut r, *src, 2);
            },
            OpOf::DsStoreB128 { vaddr, src, .. } => {
                r.push(*vaddr);
                push_vregs(&mut r, *src, 4);
            },
            OpOf::DsLoadB32 { vaddr, .. }
            | OpOf::DsLoadB64 { vaddr, .. }
            | OpOf::DsLoadB128 { vaddr, .. }
            | OpOf::DsLoadU16 { vaddr, .. } => {
                r.push(*vaddr);
            },
            OpOf::DsLoadU16D16 { dst, vaddr, .. }
            | OpOf::DsLoadU16D16Hi { dst, vaddr, .. } => {
                r.push(*dst);
                r.push(*vaddr);
            },
            OpOf::VAddF32 { src0, src1, .. }
            | OpOf::VMulF32 { src0, src1, .. }
            | OpOf::VSubF32 { src0, src1, .. }
            | OpOf::VMaxF32 { src0, src1, .. }
            | OpOf::VMinF32 { src0, src1, .. }
            | OpOf::VMinU32 { src0, src1, .. }
            | OpOf::VAddU32 { src0, src1, .. }
            | OpOf::VSubU32 { src0, src1, .. }
            | OpOf::VAndB32 { src0, src1, .. }
            | OpOf::VOrB32 { src0, src1, .. }
            | OpOf::VXorB32 { src0, src1, .. }
            | OpOf::VCmpLtU32 { src0, src1 }
            | OpOf::VCmpGeU32 { src0, src1 }
            | OpOf::VCmpGtU32 { src0, src1 }
            | OpOf::VCmpEqU32 { src0, src1 }
            | OpOf::VCmpEqF32 { src0, src1 }
            | OpOf::VCmpGtF32 { src0, src1 }
            | OpOf::VCmpLtF32 { src0, src1 }
            | OpOf::VCmpGeF32 { src0, src1 } => {
                push_operand(&mut r, *src0);
                push_operand(&mut r, *src1);
            },
            OpOf::VFmaF32 { src0, src1, src2, .. } => {
                push_operand(&mut r, *src0);
                push_operand(&mut r, *src1);
                push_operand(&mut r, *src2);
            },
            OpOf::VMov { src, .. } => {
                push_operand(&mut r, *src);
            },
            OpOf::VMulLoU32 { src0, src1, .. }
            | OpOf::CvtPkBf16F32 { src0, src1, .. }
            | OpOf::VAddCo { src0, src1, .. }
            | OpOf::VAddCOU32 { src0, src1, .. }
            | OpOf::VCmpGeI32 { src0, src1 } => {
                r.push(*src0);
                r.push(*src1);
            },
            OpOf::VLshlrevB32 { src, .. }
            | OpOf::VLshrrevB32 { src, .. }
            | OpOf::VReadfirstlane { src, .. }
            | OpOf::VCvtF32U32 { src, .. }
            | OpOf::VCvtU32F32 { src, .. }
            | OpOf::VPermlanex16B32 { src, .. }
            | OpOf::VRsqF32 { src, .. }
            | OpOf::VExpF32 { src, .. }
            | OpOf::VSinF32 { src, .. }
            | OpOf::VCosF32 { src, .. }
            | OpOf::VRcpF32 { src, .. }
            | OpOf::VSqrtF32 { src, .. }
            | OpOf::VLog2F32 { src, .. }
            | OpOf::VAddCoCi { src, .. }
            | OpOf::VAddCCU32 { src, .. }
            | OpOf::VCmpGtF32Imm0 { src }
            | OpOf::VCmpGtU32Imm { src, .. }
            | OpOf::VCmpEqU32Imm { src, .. }
            | OpOf::DsSwizzle { src, .. } => {
                r.push(*src);
            },
            OpOf::VLshrrevB32Vgpr { shift, src, .. } => {
                r.push(*shift);
                r.push(*src);
            },
            OpOf::VAndOrB32 { src0, src2, .. } => {
                r.push(*src0);
                r.push(*src2);
            },
            OpOf::VCndmaskB32 { src_false, src_true, .. } => {
                push_operand(&mut r, *src_false);
                push_operand(&mut r, *src_true);
            },
            OpOf::Wmma { a, b, c, .. } => {
                push_vregs(&mut r, *a, 8);
                push_vregs(&mut r, *b, 8);
                push_vregs(&mut r, *c, 8);
            },
            OpOf::WaveReduceAddF32 { val, .. }
            | OpOf::WaveReduceMaxF32 { val, .. }
            | OpOf::WaveReduceMinF32 { val, .. } => {
                r.push(*val);
            },
            _ => {},
        }
        assert(r@ =~= op_vreg_uses(*self));
        r
    }

    /// The scalar registers that this operation writes.
    pub fn sreg_defs(&self) -> (r: Vec<SReg>)
        ensures
            r@ == op_sreg_defs(*self),
    {
        let mut r: Vec<SReg> = Vec::new();
        match self {
            OpOf::ScalarLoad { dst, width, .. } => {
                push_sregs(&mut r, *dst, width.vreg_count());
            },
            OpOf::SMemLoadDword { dst, .. }
            | OpOf::VReadfirstlane { dst, .. }
            | OpOf::SAddU32 { dst, .. }
            | OpOf::SAddcU32 { dst, .. }
            | OpOf::SSubU32 { dst, .. }
            | OpOf::SAndB32 { dst, .. }
            | OpOf::SMulI32 { dst, .. }
            | OpOf::SLshlB32 { dst, .. }
            | OpOf::SLshrB32 { dst, .. }
            | OpOf::SMov { dst, .. }
            | OpOf::SaveExec { dst }
            | OpOf::CaptureTgid { dst, .. } => {
                r.push(*dst);
            },
            _ => {},
        }
        assert(r@ =~= op_sreg_defs(*self));
        r
    }

    /// The scalar registers that this operation reads.
    pub fn sreg_uses(&self) -> (r: Vec<SReg>)
        ensures
            r@ == op_sreg_uses(*self),
    {
        let mut r: Vec<SReg> = Vec::new();
        match self {
            OpOf::BufferLoad { srsrc, soffset, .. }
            | OpOf::BufferStore { srsrc, soffset, .. } => {
                push_sregs(&mut r, *srsrc, 4);
                push_soffset(&mut r, *soffset);
            },
            OpOf::ScalarLoad { base, .. } => {
                push_sregs(&mut r, SReg(base.0), 2);
            },
            OpOf::SMemLoadDword { base_lo, base_hi, .. } => {
                r.push(*base_lo);
                r.push(*base_hi);
            },
            OpOf::VMovFromSgpr { src, .. }
            | OpOf::SLshlB32 { src, .. }
            | OpOf::SLshrB32 { src, .. }
            | OpOf::SMovToVcc { src }
            | OpOf::RestoreExec { src } => {
                r.push(*src);
            },
            OpOf::SAddU32 { src0, src1, .. }
            | OpOf::SAddcU32 { src0, src1, .. }
            | OpOf::SSubU32 { src0, src1, .. }
            | OpOf::SAndB32 { src0, src1, .. }
            | OpOf::SCmpEqU32 { src0, src1 } => {
                r.push(*src0);
                push_soperand(&mut r, *src1);
            },
            OpOf::SMulI32 { src0, src1, .. }
            | OpOf::SCmpLtU32 { src0, src1 }
            | OpOf::SCmpGeU32 { src0, src1 } => {
                r.push(*src0);
                r.push(*src1);
            },
            OpOf::SMov { src, .. } => {
                push_soperand(&mut r, *src);
            },
            OpOf::XorExec { saved } => {
                r.push(*saved);
            },
            _ => {},
        }
        assert(r@ =~= op_sreg_uses(*self));
        r
    }

    /// Whether this operation reads the vector condition code.
    pub fn reads_vcc(&self) -> (r: bool)
        ensures
            r == op_reads_vcc(*self),
    {
        match self {
            OpOf::VAddCoCi { .. }
            | OpOf::VAddCCU32 { .. }
            | OpOf::VCndmaskB32 { .. }
            | OpOf::SaveExec { .. }
            | OpOf::BranchVccz(_)
            | OpOf::RawAsm(_) => true,
            OpOf::SAddU32 { src1, .. }
            | OpOf::SAddcU32 { src1, .. }
            | OpOf::SSubU32 { src1, .. }
            | OpOf::SAndB32 { src1, .. }
            | OpOf::SCmpEqU32 { src1, .. } => matches!(*src1, SOperand::Vcc),
            OpOf::SMov { src, .. } => matches!(*src, SOperand::Vcc),
            _ => false,
        }
    }

    /// Whether this operation writes the vector condition code.
    pub fn writes_vcc(&self) -> (r: bool)
        ensures
            r == op_writes_vcc(*self),
    {
        match self {
            OpOf::VAddCo { .. }
            | OpOf::VAddCoCi { .. }
            | OpOf::VAddCOU32 { .. }
            | OpOf::VAddCCU32 { .. }
            | OpOf::VCmpLtU32 { .. }
            | OpOf::VCmpGeU32 { .. }
            | OpOf::VCmpGtU32 { .. }
            | OpOf::VCmpEqU32 { .. }
            | OpOf::VCmpEqF32 { .. }
            | OpOf::VCmpGtF32 { .. }
            | OpOf::VCmpLtF32 { .. }
            | OpOf::VCmpGeF32 { .. }
            | OpOf::VCmpGtF32Imm0 { .. }
            | OpOf::VCmpGtU32Imm { .. }
            | OpOf::VCmpEqU32Imm { .. }
            | OpOf::VCmpGeI32 { .. }
            | OpOf::ClearVcc
            | OpOf::SMovToVcc { .. }
            | OpOf::RawAsm(_) => true,
            _ => false,
        }
    }

    /// Whether this operation reads the scalar condition code.
    pub fn reads_scc(&self) -> (r: bool)
        ensures
            r == op_reads_scc(*self),
    {
        match self {
            OpOf::SAddcU32 { .. }
            | OpOf::BranchScc0(_)
            | OpOf::BranchScc1(_)
            | OpOf::RawAsm(_) => true,
            _ => false,
        }
    }

    /// Whether this operation writes the scalar condition code.
    pub fn writes_scc(&self) -> (r: bool)
        ensures
            r == op_writes_scc(*self),
    {
        match self {
            OpOf::SAddU32 { .. }
            | OpOf::SAddcU32 { .. }
            | OpOf::SSubU32 { .. }
            | OpOf::SAndB32 { .. }
            | OpOf::SLshlB32 { .. }
            | OpOf::SLshrB32 { .. }
            | OpOf::SCmpLtU32 { .. }
            | OpOf::SCmpGeU32 { .. }
            | OpOf::SCmpEqU32 { .. }
            | OpOf::SaveExec { .. }
            | OpOf::XorExec { .. }
            | OpOf::RawAsm(_) => true,
            _ => false,
        }
    }

    /// Whether this operation has an effect besides the registers it writes, so that it keeps
    /// its place.
    pub fn has_side_effects(&self) -> (r: bool)
        ensures
            r == op_has_side_effects(*self),
    {
        match self {
            OpOf::GlobalStore { .. }
            | OpOf::BufferStore { .. }
            | OpOf::GlobalAtomicAddF32 { .. }
            | OpOf::GlobalAtomicAddU32Rtn { .. }
            | OpOf::BufferWbl2 { .. }
            | OpOf::LdsStore { .. }
            | OpOf::DsStoreB16 { .. }
            | OpOf::DsStoreB32 { .. }
            | OpOf::DsStoreB64 { .. }
            | OpOf::DsStoreB128 { .. }
            | OpOf::SaveExec { .. }
            | OpOf::RestoreExec { .. }
            | OpOf::XorExec { .. }
            | OpOf::Label(_)
            | OpOf::Branch(_)
            | OpOf::BranchScc0(_)
            | OpOf::BranchScc1(_)
            | OpOf::BranchVccz(_)
            | OpOf::Barrier
            | OpOf::SBarrier
            | OpOf::WaitVmcnt(_)
            | OpOf::WaitLgkmcnt(_)
            | OpOf::WaitVscnt(_)
            | OpOf::Endpgm
            | OpOf::ReadShaderCycles { .. }
            | OpOf::RawAsm(_) => true,
            _ => false,
        }
    }

    /// Every vector register that this operation reads or writes.
    pub fn vreg_refs(&self) -> (r: Vec<VReg>)
        ensures
            r@ == op_vreg_refs(*self),
    {
        let mut r: Vec<VReg> = self.vreg_uses();
        let mut defs: Vec<VReg> = self.vreg_defs();
        r.append(&mut defs);
        r
    }
}

/// Every vector register that an operation reads or writes.
pub open spec fn op_vreg_refs<S>(op: OpOf<S>) -> Seq<VReg> {
    op_vreg_uses(op) + op_vreg_defs(op)
}

} // verus!
