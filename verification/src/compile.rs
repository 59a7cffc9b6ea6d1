//! Kernels on virtual registers, and their way to assembly text.
//!
//! A `T0Kernel` collects arguments, registers and operations. `to_assembly` checks it,
//! optimizes its operations, places its registers and writes the assembly.
use std::collections::HashSet;

use vstd::prelude::*;

use crate::asm_emitter::{
    AsmEmitter, EmitState, all_encodable, fresh_state, kernel_state,
};
use crate::ir::{
    Alignment, ArgKind, KernArg, KernArgOf, KernArgText, Op, OpOf, OpText, Operand, SOFFSET_ZERO,
    SOperand, SReg, SRegAlloc, SRegPair, Target, VReg, VRegAlloc, Width, WmmaFormat, op_vreg_refs,
};
use crate::fold::in_group;
use crate::lives::{allocate_sharing, shared_allocation_of, shared_exhausted};
use crate::opt_passes::{
    OptConfig, Passes, max_vreg, max_vreg_in_ops, max_vreg_is_largest, optimize, optimized,
};
use crate::regalloc::{
    AllocError, RegAlloc, allocate, allocation_of, exhausted, groups_valid, names_vreg, s_groups,
    v_groups, vreg_refs_of,
};
use crate::spill::{
    Source, check_encodable, find_scattered, group_kept, groups_kept, lemma_count_fits,
    slots_before, spill,
};
use crate::text::{dec, dec_is_injective, digits_only, push_dec};

verus! {

broadcast use vstd::std_specs::hash::group_hash_axioms;

/// Vector registers that have to be consecutive: matrix fragments, wide loads.
#[derive(Clone, Copy, Debug, PartialEq, Eq, Structural)]
pub struct CoalescedGroup {
    pub id: u32,
    pub base_vreg: VReg,
    pub count: u32,
}

/// A GPU kernel under construction.
pub struct T0Kernel {
    pub name: String,
    ops: Vec<Op>,
    args: Vec<KernArg>,
    vreg_allocs: Vec<VRegAlloc>,
    sreg_allocs: Vec<SRegAlloc>,
    next_vreg: u32,
    next_sreg: u32,
    kernarg_size: u32,
    lds_size: u32,
    wg_size: u32,
    wgp_mode: bool,
    label_counter: u32,
    pub skip_optimize: bool,
    use_ssa_regalloc: bool,
    opt_level: Option<u32>,
    skip_cse: bool,
    coalesced_groups: Vec<CoalescedGroup>,
    next_coalesced_group_id: u32,
}

/// What a kernel consists of.
#[verifier::ext_equal]
pub struct KernelState {
    pub name: Seq<char>,
    pub ops: Seq<OpText>,
    pub args: Seq<KernArgText>,
    pub vreg_allocs: Seq<VRegAlloc>,
    pub sreg_allocs: Seq<SRegAlloc>,
    /// The number of the next vector register.
    pub next_vreg: nat,
    /// The number of the next scalar register.
    pub next_sreg: nat,
    /// Size of the argument buffer in bytes.
    pub kernarg_size: nat,
    /// Local data share in bytes.
    pub lds_size: u32,
    /// Threads per workgroup.
    pub wg_size: u32,
    pub wgp_mode: bool,
    /// The number of the next label.
    pub label_counter: nat,
    pub skip_optimize: bool,
    pub use_ssa_regalloc: bool,
    pub opt_level: Option<u32>,
    pub skip_cse: bool,
    pub coalesced_groups: Seq<CoalescedGroup>,
    /// The number of the next coalesced group.
    pub next_group: nat,
}

/// How many bytes an argument takes.
pub open spec fn arg_size(kind: ArgKind) -> nat {
    match kind {
        ArgKind::Ptr => 8,
        _ => 4,
    }
}

/// How many scalar registers an argument takes.
pub open spec fn arg_sregs(kind: ArgKind) -> nat {
    match kind {
        ArgKind::Ptr => 2,
        _ => 1,
    }
}

/// How an argument is loaded.
pub open spec fn arg_width(kind: ArgKind) -> Width {
    match kind {
        ArgKind::Ptr => Width::B64,
        _ => Width::B32,
    }
}

/// The operations that load arguments into their registers.
pub open spec fn arg_load_ops(args: Seq<KernArgText>) -> Seq<OpText> {
    args.map_values(
        |a: KernArgText|
            OpText::ScalarLoad {
                dst: a.sreg,
                base: SRegPair(T0Kernel::KERNARG_BASE_SENTINEL),
                offset: a.offset,
                width: arg_width(a.kind),
            },
    )
}

/// Whether arguments follow each other in the buffer without gaps, from 0 to `end`.
pub open spec fn args_packed(args: Seq<KernArgText>, end: nat) -> bool
    decreases args.len(),
{
    if args.len() == 0 {
        end == 0
    } else {
        &&& args.last().offset + arg_size(args.last().kind) == end
        &&& args_packed(args.drop_last(), args.last().offset as nat)
    }
}

/// Whether groups of vector registers follow each other below `next`.
pub open spec fn vregs_ordered(allocs: Seq<VRegAlloc>, next: nat) -> bool {
    &&& forall|i: int|
        0 <= i < allocs.len() ==> 1 <= (#[trigger] allocs[i]).vreg.0 && allocs[i].vreg.0
            + allocs[i].count <= next
    &&& forall|i: int, j: int|
        0 <= i < j < allocs.len() ==> (#[trigger] allocs[i]).vreg.0 + allocs[i].count <= (
        #[trigger] allocs[j]).vreg.0
}

/// Whether groups of scalar registers follow each other below `next`.
pub open spec fn sregs_ordered(allocs: Seq<SRegAlloc>, next: nat) -> bool {
    &&& forall|i: int|
        0 <= i < allocs.len() ==> (#[trigger] allocs[i]).sreg.0 + allocs[i].count <= next
    &&& forall|i: int, j: int|
        0 <= i < j < allocs.len() ==> (#[trigger] allocs[i]).sreg.0 + allocs[i].count <= (
        #[trigger] allocs[j]).sreg.0
}

/// Whether no two groups have the same number, and the next number is larger than each.
pub open spec fn group_ids_fresh(groups: Seq<CoalescedGroup>, next: nat) -> bool {
    &&& forall|i: int| 0 <= i < groups.len() ==> (#[trigger] groups[i]).id < next
    &&& forall|i: int, j: int|
        0 <= i < j < groups.len() ==> (#[trigger] groups[i]).id != (#[trigger] groups[j]).id
}

impl KernelState {
    /// Whether registers and group numbers were handed out once each, and arguments laid out
    /// without gaps.
    pub open spec fn wf(self) -> bool {
        &&& 1 <= self.next_vreg <= u32::MAX
        &&& self.next_sreg <= u32::MAX
        &&& vregs_ordered(self.vreg_allocs, self.next_vreg)
        &&& sregs_ordered(self.sreg_allocs, self.next_sreg)
        &&& args_packed(self.args, self.kernarg_size)
        &&& group_ids_fresh(self.coalesced_groups, self.next_group)
    }

    /// A kernel with nothing in it.
    pub open spec fn empty(name: Seq<char>) -> KernelState {
        KernelState {
            name,
            ops: Seq::empty(),
            args: Seq::empty(),
            vreg_allocs: Seq::empty(),
            sreg_allocs: Seq::empty(),
            next_vreg: 1,
            next_sreg: 0,
            kernarg_size: 0,
            lds_size: 0,
            wg_size: 256,
            wgp_mode: false,
            label_counter: 0,
            skip_optimize: false,
            use_ssa_regalloc: true,
            opt_level: None,
            skip_cse: false,
            coalesced_groups: Seq::empty(),
            next_group: 0,
        }
    }

    /// With one more operation.
    pub open spec fn with_op(self, op: OpText) -> KernelState {
        KernelState { ops: self.ops.push(op), ..self }
    }

    /// With more operations.
    pub open spec fn with_ops(self, ops: Seq<OpText>) -> KernelState {
        KernelState { ops: self.ops + ops, ..self }
    }

    /// With a group of `count` more vector registers.
    pub open spec fn with_vregs(self, count: u32, alignment: Alignment) -> KernelState {
        KernelState {
            vreg_allocs: self.vreg_allocs.push(
                VRegAlloc { vreg: VReg(self.next_vreg as u32), count, alignment },
            ),
            next_vreg: self.next_vreg + count as nat,
            ..self
        }
    }

    /// With a group of `count` more scalar registers.
    pub open spec fn with_sregs(self, count: u32, alignment: Alignment) -> KernelState {
        KernelState {
            sreg_allocs: self.sreg_allocs.push(
                SRegAlloc { sreg: SReg(self.next_sreg as u32), count, alignment },
            ),
            next_sreg: self.next_sreg + count as nat,
            ..self
        }
    }

    /// With one more argument, in registers of its own.
    pub open spec fn with_arg(self, name: Seq<char>, kind: ArgKind) -> KernelState {
        let arg = KernArgText {
            name,
            kind,
            offset: self.kernarg_size as u32,
            sreg: SReg(self.next_sreg as u32),
        };
        let placed = if kind is Ptr {
            self.with_sregs(2, Alignment::Align2)
        } else {
            self.with_sregs(1, Alignment::Align1)
        };
        KernelState {
            args: self.args.push(arg),
            kernarg_size: self.kernarg_size + arg_size(kind),
            ..placed
        }
    }

    /// With one more coalesced group.
    pub open spec fn with_group(self, base_vreg: VReg, count: u32) -> KernelState {
        KernelState {
            coalesced_groups: self.coalesced_groups.push(
                CoalescedGroup { id: self.next_group as u32, base_vreg, count },
            ),
            next_group: self.next_group + 1,
            ..self
        }
    }
}

/// What operations are, their text as characters.
pub open spec fn op_texts(ops: Seq<Op>) -> Seq<OpText> {
    ops.map_values(|op: Op| op@)
}

/// What arguments are, their names as characters.
pub open spec fn arg_texts(args: Seq<KernArg>) -> Seq<KernArgText> {
    args.map_values(|a: KernArg| a@)
}

impl View for T0Kernel {
    type V = KernelState;

    closed spec fn view(&self) -> KernelState {
        KernelState {
            name: self.name@,
            ops: op_texts(self.ops@),
            args: arg_texts(self.args@),
            vreg_allocs: self.vreg_allocs@,
            sreg_allocs: self.sreg_allocs@,
            next_vreg: self.next_vreg as nat,
            next_sreg: self.next_sreg as nat,
            kernarg_size: self.kernarg_size as nat,
            lds_size: self.lds_size,
            wg_size: self.wg_size,
            wgp_mode: self.wgp_mode,
            label_counter: self.label_counter as nat,
            skip_optimize: self.skip_optimize,
            use_ssa_regalloc: self.use_ssa_regalloc,
            opt_level: self.opt_level,
            skip_cse: self.skip_cse,
            coalesced_groups: self.coalesced_groups@,
            next_group: self.next_coalesced_group_id as nat,
        }
    }
}

/// Four operations that turn one register of an accumulator into one of a matrix input:
/// select the even and the odd value for each half of the wave, then pack them.
pub open spec fn pack_ops(dst: VReg, src: VReg, tmp: VReg) -> Seq<OpText> {
    seq![
        OpText::VCndmaskB32 {
            dst: tmp,
            src_false: Operand::VReg(dst),
            src_true: Operand::VReg(src),
        },
        OpText::VCndmaskB32 {
            dst: VReg((tmp.0 + 1) as u32),
            src_false: Operand::VReg(src),
            src_true: Operand::VReg(dst),
        },
        OpText::VLshrrevB32 { dst: VReg((tmp.0 + 2) as u32), shift: 16, src: tmp },
        OpText::VAndOrB32 {
            dst,
            src0: VReg((tmp.0 + 1) as u32),
            literal: 0xFFFF_0000,
            src2: VReg((tmp.0 + 2) as u32),
        },
    ]
}

/// The packing of the first `n` registers.
pub open spec fn pack_all(dst: VReg, src: VReg, tmp: VReg, n: nat) -> Seq<OpText>
    decreases n,
{
    if n == 0 {
        Seq::empty()
    } else {
        pack_all(dst, src, tmp, (n - 1) as nat) + pack_ops(
            VReg((dst.0 + n - 1) as u32),
            VReg((src.0 + n - 1) as u32),
            tmp,
        )
    }
}

/// The operations that turn eight registers in accumulator layout into eight registers in
/// matrix input layout: find out the half of the wave, swap the halves, pack.
pub open spec fn transpose_ops(dst: VReg, src: VReg, tmp: VReg) -> Seq<OpText> {
    let lane = VReg((tmp.0 + 2) as u32);
    seq![
        OpText::VAndB32 {
            dst: lane,
            src0: Operand::VReg(VReg(0)),
            src1: Operand::InlineInt(31),
        },
        OpText::VCmpLtU32 { src0: Operand::VReg(lane), src1: Operand::InlineInt(16) },
    ] + Seq::new(
        8,
        |i: int|
            OpText::VPermlanex16B32 {
                dst: VReg((dst.0 + i) as u32),
                src: VReg((src.0 + i) as u32),
            },
    ) + pack_all(dst, src, tmp, 8)
}

impl T0Kernel {
    /// Stands for the workgroup number along x.
    pub const TGID_X_SENTINEL: u32 = 0xFFFF_FFFF;

    /// Stands for the workgroup number along y.
    pub const TGID_Y_SENTINEL: u32 = 0xFFFF_FFFE;

    /// Stands for the workgroup number along z.
    pub const TGID_Z_SENTINEL: u32 = 0xFFFF_FFFD;

    /// Stands for the pointer to the argument buffer.
    pub const KERNARG_BASE_SENTINEL: u32 = 0xFFFF_FFF5;

    /// A kernel with nothing in it.
    pub fn new(name: &str) -> (r: Self)
        ensures
            r@ == KernelState::empty(name@),
            r@.wf(),
    {
        let r = T0Kernel {
            name: name.to_string(),
            ops: Vec::new(),
            args: Vec::new(),
            vreg_allocs: Vec::new(),
            sreg_allocs: Vec::new(),
            next_vreg: 1,
            next_sreg: 0,
            kernarg_size: 0,
            lds_size: 0,
            wg_size: 256,
            wgp_mode: false,
            label_counter: 0,
            skip_optimize: false,
            use_ssa_regalloc: true,
            opt_level: None,
            skip_cse: false,
            coalesced_groups: Vec::new(),
            next_coalesced_group_id: 0,
        };
        assert(r@ =~= KernelState::empty(name@));
        r
    }

    // ── Arguments ──
    /// Declares an argument of some kind.
    fn arg(&mut self, name: &str, kind: ArgKind) -> (r: u32)
        requires
            old(self)@.wf(),
            old(self)@.next_sreg + arg_sregs(kind) <= u32::MAX,
            old(self)@.kernarg_size + arg_size(kind) <= u32::MAX,
        ensures
            r == old(self)@.next_sreg,
            final(self)@ == old(self)@.with_arg(name@, kind),
            final(self)@.wf(),
    {
        let sreg_id: u32 = self.next_sreg;
        let offset: u32 = self.kernarg_size;
        match kind {
            ArgKind::Ptr => {
                self.next_sreg = self.next_sreg + 2;
                self.kernarg_size = self.kernarg_size + 8;
                self.sreg_allocs.push(
                    SRegAlloc { sreg: SReg(sreg_id), count: 2, alignment: Alignment::Align2 },
                );
            },
            _ => {
                self.next_sreg = self.next_sreg + 1;
                self.kernarg_size = self.kernarg_size + 4;
                self.sreg_allocs.push(
                    SRegAlloc { sreg: SReg(sreg_id), count: 1, alignment: Alignment::Align1 },
                );
            },
        }
        self.args.push(KernArgOf { name: name.to_string(), kind, offset, sreg: SReg(sreg_id) });
        proof {
            let s = old(self)@.with_arg(name@, kind);
            assert(self@ =~= s) by {
                assert(arg_texts(self.args@) =~= s.args);
            }
            assert(s.args.drop_last() =~= old(self)@.args);
        }
        sreg_id
    }

    /// Declares a 64-bit pointer argument.
    pub fn arg_ptr(&mut self, name: &str) -> (r: SRegPair)
        requires
            old(self)@.wf(),
            old(self)@.next_sreg + 2 <= u32::MAX,
            old(self)@.kernarg_size + 8 <= u32::MAX,
        ensures
            r == SRegPair(old(self)@.next_sreg as u32),
            final(self)@ == old(self)@.with_arg(name@, ArgKind::Ptr),
            final(self)@.wf(),
    {
        SRegPair(self.arg(name, ArgKind::Ptr))
    }

    /// Declares an unsigned 32-bit argument.
    pub fn arg_u32(&mut self, name: &str) -> (r: SReg)
        requires
            old(self)@.wf(),
            old(self)@.next_sreg < u32::MAX,
            old(self)@.kernarg_size + 4 <= u32::MAX,
        ensures
            r == SReg(old(self)@.next_sreg as u32),
            final(self)@ == old(self)@.with_arg(name@, ArgKind::U32),
            final(self)@.wf(),
    {
        SReg(self.arg(name, ArgKind::U32))
    }

    /// Declares a 32-bit float argument.
    pub fn arg_f32(&mut self, name: &str) -> (r: SReg)
        requires
            old(self)@.wf(),
            old(self)@.next_sreg < u32::MAX,
            old(self)@.kernarg_size + 4 <= u32::MAX,
        ensures
            r == SReg(old(self)@.next_sreg as u32),
            final(self)@ == old(self)@.with_arg(name@, ArgKind::F32),
            final(self)@.wf(),
    {
        SReg(self.arg(name, ArgKind::F32))
    }

    // ── Registers ──
    /// Hands out one vector register.
    pub fn alloc_vreg(&mut self) -> (r: VReg)
        requires
            old(self)@.wf(),
            old(self)@.next_vreg < u32::MAX,
        ensures
            r == VReg(old(self)@.next_vreg as u32),
            final(self)@ == old(self)@.with_vregs(1, Alignment::Align1),
            final(self)@.wf(),
    {
        self.alloc_vreg_array(1, Alignment::Align1)
    }

    /// Hands out `count` consecutive vector registers and returns the first.
    pub fn alloc_vreg_array(&mut self, count: u32, align: Alignment) -> (r: VReg)
        requires
            old(self)@.wf(),
            old(self)@.next_vreg + count <= u32::MAX,
        ensures
            r == VReg(old(self)@.next_vreg as u32),
            final(self)@ == old(self)@.with_vregs(count, align),
            final(self)@.wf(),
    {
        let v = VReg(self.next_vreg);
        self.next_vreg = self.next_vreg + count;
        self.vreg_allocs.push(VRegAlloc { vreg: v, count, alignment: align });
        assert(self@ =~= old(self)@.with_vregs(count, align));
        v
    }

    /// Hands out two consecutive vector registers for a 64-bit address, which belong to no
    /// earlier group, and registers them under a number that no earlier group has.
    pub fn alloc_addr_pair(&mut self) -> (r: (VReg, VReg))
        requires
            old(self)@.wf(),
            old(self)@.next_vreg + 2 <= u32::MAX,
            old(self)@.next_group < u32::MAX,
        ensures
            r.0 == VReg(old(self)@.next_vreg as u32),
            r.1.0 == r.0.0 + 1,
            forall|i: int|
                0 <= i < old(self)@.vreg_allocs.len() ==> (
                #[trigger] old(self)@.vreg_allocs[i]).vreg.0 + old(self)@.vreg_allocs[i].count
                    <= r.0.0,
            forall|i: int|
                0 <= i < old(self)@.coalesced_groups.len() ==> (
                #[trigger] old(self)@.coalesced_groups[i]).id
                    != final(self)@.coalesced_groups.last().id,
            final(self)@.coalesced_groups.last().base_vreg == r.0,
            final(self)@.coalesced_groups.last().count == 2,
            final(self)@ == old(self)@.with_vregs(2, Alignment::Align2).with_group(r.0, 2),
            final(self)@.wf(),
    {
        let pair = self.alloc_vreg_array(2, Alignment::Align2);
        self.mark_coalesced_group(pair, 2);
        (pair, VReg(pair.0 + 1))
    }

    /// Hands out `count` consecutive scalar registers and returns the first.
    fn alloc_sregs(&mut self, count: u32, align: Alignment) -> (r: SReg)
        requires
            old(self)@.wf(),
            old(self)@.next_sreg + count <= u32::MAX,
        ensures
            r == SReg(old(self)@.next_sreg as u32),
            final(self)@ == old(self)@.with_sregs(count, align),
            final(self)@.wf(),
    {
        let s = SReg(self.next_sreg);
        self.next_sreg = self.next_sreg + count;
        self.sreg_allocs.push(SRegAlloc { sreg: s, count, alignment: align });
        assert(self@ =~= old(self)@.with_sregs(count, align));
        s
    }

    /// Hands out one scalar register.
    pub fn alloc_sreg(&mut self) -> (r: SReg)
        requires
            old(self)@.wf(),
            old(self)@.next_sreg < u32::MAX,
        ensures
            r == SReg(old(self)@.next_sreg as u32),
            final(self)@ == old(self)@.with_sregs(1, Alignment::Align1),
            final(self)@.wf(),
    {
        self.alloc_sregs(1, Alignment::Align1)
    }

    /// Hands out two scalar registers, from an even place on.
    pub fn alloc_sreg_pair(&mut self) -> (r: SRegPair)
        requires
            old(self)@.wf(),
            old(self)@.next_sreg + 2 <= u32::MAX,
        ensures
            r == SRegPair(old(self)@.next_sreg as u32),
            final(self)@ == old(self)@.with_sregs(2, Alignment::Align2),
            final(self)@.wf(),
    {
        SRegPair(self.alloc_sregs(2, Alignment::Align2).0)
    }

    /// Hands out four scalar registers for a buffer descriptor.
    pub fn alloc_sreg_quad(&mut self) -> (r: SReg)
        requires
            old(self)@.wf(),
            old(self)@.next_sreg + 4 <= u32::MAX,
        ensures
            r == SReg(old(self)@.next_sreg as u32),
            final(self)@ == old(self)@.with_sregs(4, Alignment::Align4),
            final(self)@.wf(),
    {
        self.alloc_sregs(4, Alignment::Align4)
    }

    // ── Settings ──
    /// Sets the size of the local data share in bytes.
    pub fn set_lds_size(&mut self, size: u32)
        ensures
            final(self)@ == (KernelState { lds_size: size, ..old(self)@ }),
    {
        self.lds_size = size;
    }

    /// Lets a workgroup span two compute units.
    pub fn set_wgp_mode(&mut self, enable: bool)
        ensures
            final(self)@ == (KernelState { wgp_mode: enable, ..old(self)@ }),
    {
        self.wgp_mode = enable;
    }

    /// A label name that no other call returns.
    pub fn make_label(&mut self, prefix: &str) -> (r: String)
        requires
            old(self)@.label_counter < u32::MAX,
        ensures
            r@ == label_name(prefix@, old(self)@.label_counter),
            final(self)@ == (KernelState {
                label_counter: old(self)@.label_counter + 1,
                ..old(self)@
            }),
    {
        let id: u32 = self.label_counter;
        self.label_counter = self.label_counter + 1;
        let mut r = String::new();
        r.append(prefix);
        r.append("_");
        push_dec(&mut r, id as u64);
        assert(r@ =~= label_name(prefix@, id as nat));
        r
    }

    /// The thread number within the workgroup: always `v0`.
    pub fn thread_id_x(&self) -> (r: VReg)
        ensures
            r == VReg(0),
    {
        VReg(0)
    }

    /// The workgroup number along x.
    pub fn workgroup_id_x(&self) -> (r: SReg)
        ensures
            r == SReg(T0Kernel::TGID_X_SENTINEL),
    {
        SReg(Self::TGID_X_SENTINEL)
    }

    /// The workgroup number along y.
    pub fn workgroup_id_y(&self) -> (r: SReg)
        ensures
            r == SReg(T0Kernel::TGID_Y_SENTINEL),
    {
        SReg(Self::TGID_Y_SENTINEL)
    }

    /// The workgroup number along z.
    pub fn workgroup_id_z(&self) -> (r: SReg)
        ensures
            r == SReg(T0Kernel::TGID_Z_SENTINEL),
    {
        SReg(Self::TGID_Z_SENTINEL)
    }

    // ── Operations ──
    /// Appends an operation.
    pub fn push(&mut self, op: Op)
        ensures
            final(self)@ == old(self)@.with_op(op@),
    {
        self.ops.push(op);
        assert(op_texts(self.ops@) =~= op_texts(old(self).ops@).push(op@));
    }

    /// Loads from global memory at `addr + offset`.
    pub fn global_load(&mut self, dst: VReg, addr: VReg, width: Width, offset: i32)
        ensures
            final(self)@ == old(self)@.with_op(OpOf::GlobalLoad { dst, addr, width, offset }),
    {
        self.push(OpOf::GlobalLoad { dst, addr, width, offset });
    }

    /// Stores to global memory at `addr + offset`.
    pub fn global_store(&mut self, addr: VReg, src: VReg, width: Width, offset: i32)
        ensures
            final(self)@ == old(self)@.with_op(OpOf::GlobalStore { addr, src, width, offset }),
    {
        self.push(OpOf::GlobalStore { addr, src, width, offset });
    }

    /// Loads from a buffer at `voffset + offset`.
    pub fn buffer_load(&mut self, dst: VReg, voffset: VReg, srsrc: SReg, width: Width, offset: u16)
        ensures
            final(self)@ == old(self)@.with_op(
                OpOf::BufferLoad {
                    dst,
                    voffset,
                    srsrc,
                    width,
                    offset,
                    soffset: SReg(SOFFSET_ZERO),
                },
            ),
    {
        self.push(
            OpOf::BufferLoad { dst, voffset, srsrc, width, offset, soffset: SReg(SOFFSET_ZERO) },
        );
    }

    /// Loads from a buffer at `voffset + soffset + offset`.
    pub fn buffer_load_soffset(
        &mut self,
        dst: VReg,
        voffset: VReg,
        srsrc: SReg,
        width: Width,
        offset: u16,
        soffset: SReg,
    )
        ensures
            final(self)@ == old(self)@.with_op(
                OpOf::BufferLoad { dst, voffset, srsrc, width, offset, soffset },
            ),
    {
        self.push(OpOf::BufferLoad { dst, voffset, srsrc, width, offset, soffset });
    }

    /// Stores to a buffer at `voffset + offset`.
    pub fn buffer_store(&mut self, voffset: VReg, src: VReg, srsrc: SReg, width: Width, offset: u16)
        ensures
            final(self)@ == old(self)@.with_op(
                OpOf::BufferStore {
                    voffset,
                    src,
                    srsrc,
                    width,
                    offset,
                    soffset: SReg(SOFFSET_ZERO),
                },
            ),
    {
        self.push(
            OpOf::BufferStore { voffset, src, srsrc, width, offset, soffset: SReg(SOFFSET_ZERO) },
        );
    }

    /// Loads from the local data share.
    pub fn lds_load(&mut self, dst: VReg, addr: VReg, width: Width, offset: u16)
        ensures
            final(self)@ == old(self)@.with_op(OpOf::LdsLoad { dst, addr, width, offset }),
    {
        self.push(OpOf::LdsLoad { dst, addr, width, offset });
    }

    /// Stores to the local data share.
    pub fn lds_store(&mut self, addr: VReg, src: VReg, width: Width, offset: u16)
        ensures
            final(self)@ == old(self)@.with_op(OpOf::LdsStore { addr, src, width, offset }),
    {
        self.push(OpOf::LdsStore { addr, src, width, offset });
    }

    /// Loads scalar registers from `base + offset`.
    pub fn scalar_load(&mut self, dst: SReg, base: SRegPair, offset: u32, width: Width)
        ensures
            final(self)@ == old(self)@.with_op(OpOf::ScalarLoad { dst, base, offset, width }),
    {
        self.push(OpOf::ScalarLoad { dst, base, offset, width });
    }

    /// `dst = src0 + src1`.
    pub fn v_add_f32(&mut self, dst: VReg, src0: VReg, src1: VReg)
        ensures
            final(self)@ == old(self)@.with_op(
                OpOf::VAddF32 { dst, src0: Operand::VReg(src0), src1: Operand::VReg(src1) },
            ),
    {
        self.push(OpOf::VAddF32 { dst, src0: Operand::VReg(src0), src1: Operand::VReg(src1) });
    }

    /// `dst = src0 * src1`.
    pub fn v_mul_f32(&mut self, dst: VReg, src0: VReg, src1: VReg)
        ensures
            final(self)@ == old(self)@.with_op(
                OpOf::VMulF32 { dst, src0: Operand::VReg(src0), src1: Operand::VReg(src1) },
            ),
    {
        self.push(OpOf::VMulF32 { dst, src0: Operand::VReg(src0), src1: Operand::VReg(src1) });
    }

    /// `dst = src * scale`, the scale by its bits.
    pub fn v_mul_f32_imm(&mut self, dst: VReg, src: VReg, scale: u32)
        ensures
            final(self)@ == old(self)@.with_op(
                OpOf::VMulF32 { dst, src0: Operand::VReg(src), src1: Operand::InlineFloat(scale) },
            ),
    {
        self.push(
            OpOf::VMulF32 { dst, src0: Operand::VReg(src), src1: Operand::InlineFloat(scale) },
        );
    }

    /// `dst = a * b + c`.
    pub fn v_fma_f32(&mut self, dst: VReg, a: VReg, b: VReg, c: VReg)
        ensures
            final(self)@ == old(self)@.with_op(
                OpOf::VFmaF32 {
                    dst,
                    src0: Operand::VReg(a),
                    src1: Operand::VReg(b),
                    src2: Operand::VReg(c),
                },
            ),
    {
        self.push(
            OpOf::VFmaF32 {
                dst,
                src0: Operand::VReg(a),
                src1: Operand::VReg(b),
                src2: Operand::VReg(c),
            },
        );
    }

    /// `dst = src`.
    pub fn v_mov(&mut self, dst: VReg, src: VReg)
        ensures
            final(self)@ == old(self)@.with_op(OpOf::VMov { dst, src: Operand::VReg(src) }),
    {
        self.push(OpOf::VMov { dst, src: Operand::VReg(src) });
    }

    /// `dst = val`.
    pub fn v_mov_imm(&mut self, dst: VReg, val: i32)
        ensures
            final(self)@ == old(self)@.with_op(OpOf::VMov { dst, src: Operand::InlineInt(val) }),
    {
        self.push(OpOf::VMov { dst, src: Operand::InlineInt(val) });
    }

    /// Copies a scalar register to every lane.
    pub fn v_mov_from_sgpr(&mut self, dst: VReg, src: SReg)
        ensures
            final(self)@ == old(self)@.with_op(OpOf::VMovFromSgpr { dst, src }),
    {
        self.push(OpOf::VMovFromSgpr { dst, src });
    }

    /// `dst = src0 + src1`, unsigned.
    pub fn v_add_u32(&mut self, dst: VReg, src0: VReg, src1: VReg)
        ensures
            final(self)@ == old(self)@.with_op(
                OpOf::VAddU32 { dst, src0: Operand::VReg(src0), src1: Operand::VReg(src1) },
            ),
    {
        self.push(OpOf::VAddU32 { dst, src0: Operand::VReg(src0), src1: Operand::VReg(src1) });
    }

    /// `dst = src & mask`.
    pub fn v_and_b32_imm(&mut self, dst: VReg, src: VReg, mask: u32)
        ensures
            final(self)@ == old(self)@.with_op(
                OpOf::VAndB32 {
                    dst,
                    src0: Operand::VReg(src),
                    src1: Operand::InlineInt(mask as i32),
                },
            ),
    {
        self.push(
            OpOf::VAndB32 { dst, src0: Operand::VReg(src), src1: Operand::InlineInt(mask as i32) },
        );
    }

    /// `dst = src << shift`.
    pub fn v_lshlrev_b32(&mut self, dst: VReg, shift: u8, src: VReg)
        ensures
            final(self)@ == old(self)@.with_op(OpOf::VLshlrevB32 { dst, shift, src }),
    {
        self.push(OpOf::VLshlrevB32 { dst, shift, src });
    }

    /// `dst = src >> shift`.
    pub fn v_lshrrev_b32(&mut self, dst: VReg, shift: u8, src: VReg)
        ensures
            final(self)@ == old(self)@.with_op(OpOf::VLshrrevB32 { dst, shift, src }),
    {
        self.push(OpOf::VLshrrevB32 { dst, shift, src });
    }

    /// `dst = a * b`, the low 32 bits.
    pub fn v_mul_lo_u32(&mut self, dst: VReg, a: VReg, b: VReg)
        ensures
            final(self)@ == old(self)@.with_op(OpOf::VMulLoU32 { dst, src0: a, src1: b }),
    {
        self.push(OpOf::VMulLoU32 { dst, src0: a, src1: b });
    }

    /// `dst = src0 + src1` with the carry in VCC.
    pub fn v_add_co(&mut self, dst: VReg, src0: VReg, src1: VReg)
        ensures
            final(self)@ == old(self)@.with_op(OpOf::VAddCo { dst, src0, src1 }),
    {
        self.push(OpOf::VAddCo { dst, src0, src1 });
    }

    /// `dst = src + carry`, the carry from and to VCC.
    pub fn v_add_co_ci(&mut self, dst: VReg, src: VReg)
        ensures
            final(self)@ == old(self)@.with_op(OpOf::VAddCoCi { dst, src }),
    {
        self.push(OpOf::VAddCoCi { dst, src });
    }

    /// `dst = src0 + imm`.
    pub fn s_add_u32(&mut self, dst: SReg, src0: SReg, imm: i32)
        ensures
            final(self)@ == old(self)@.with_op(
                OpOf::SAddU32 { dst, src0, src1: SOperand::InlineInt(imm) },
            ),
    {
        self.push(OpOf::SAddU32 { dst, src0, src1: SOperand::InlineInt(imm) });
    }

    /// `dst = val`.
    pub fn s_mov_imm(&mut self, dst: SReg, val: i32)
        ensures
            final(self)@ == old(self)@.with_op(OpOf::SMov { dst, src: SOperand::InlineInt(val) }),
    {
        self.push(OpOf::SMov { dst, src: SOperand::InlineInt(val) });
    }

    /// `dst = src << shift`.
    pub fn s_lshl_b32(&mut self, dst: SReg, src: SReg, shift: u8)
        ensures
            final(self)@ == old(self)@.with_op(OpOf::SLshlB32 { dst, src, shift }),
    {
        self.push(OpOf::SLshlB32 { dst, src, shift });
    }

    /// `dst = src >> shift`.
    pub fn s_lshr_b32(&mut self, dst: SReg, src: SReg, shift: u8)
        ensures
            final(self)@ == old(self)@.with_op(OpOf::SLshrB32 { dst, src, shift }),
    {
        self.push(OpOf::SLshrB32 { dst, src, shift });
    }

    /// `dst = src0 + src1`.
    pub fn s_add_u32_ss(&mut self, dst: SReg, src0: SReg, src1: SReg)
        ensures
            final(self)@ == old(self)@.with_op(
                OpOf::SAddU32 { dst, src0, src1: SOperand::SReg(src1) },
            ),
    {
        self.push(OpOf::SAddU32 { dst, src0, src1: SOperand::SReg(src1) });
    }

    /// `dst = src0 + src1 + carry`; follows the addition that sets the carry.
    pub fn s_addc_u32(&mut self, dst: SReg, src0: SReg, src1: SReg)
        ensures
            final(self)@ == old(self)@.with_op(
                OpOf::SAddcU32 { dst, src0, src1: SOperand::SReg(src1) },
            ),
    {
        self.push(OpOf::SAddcU32 { dst, src0, src1: SOperand::SReg(src1) });
    }

    /// `dst = src0 + imm + carry`.
    pub fn s_addc_u32_imm(&mut self, dst: SReg, src0: SReg, imm: i32)
        ensures
            final(self)@ == old(self)@.with_op(
                OpOf::SAddcU32 { dst, src0, src1: SOperand::InlineInt(imm) },
            ),
    {
        self.push(OpOf::SAddcU32 { dst, src0, src1: SOperand::InlineInt(imm) });
    }

    /// SCC is whether `src0 < src1`.
    pub fn s_cmp_lt_u32(&mut self, src0: SReg, src1: SReg)
        ensures
            final(self)@ == old(self)@.with_op(OpOf::SCmpLtU32 { src0, src1 }),
    {
        self.push(OpOf::SCmpLtU32 { src0, src1 });
    }

    /// SCC is whether `src0 == imm`.
    pub fn s_cmp_eq_u32_imm(&mut self, src0: SReg, imm: i32)
        ensures
            final(self)@ == old(self)@.with_op(
                OpOf::SCmpEqU32 { src0, src1: SOperand::InlineInt(imm) },
            ),
    {
        self.push(OpOf::SCmpEqU32 { src0, src1: SOperand::InlineInt(imm) });
    }

    /// SCC is whether `src0 >= src1`.
    pub fn s_cmp_ge_u32(&mut self, src0: SReg, src1: SReg)
        ensures
            final(self)@ == old(self)@.with_op(OpOf::SCmpGeU32 { src0, src1 }),
    {
        self.push(OpOf::SCmpGeU32 { src0, src1 });
    }

    /// Reads lane 0 into a scalar register.
    pub fn v_readfirstlane(&mut self, dst: SReg, src: VReg)
        ensures
            final(self)@ == old(self)@.with_op(OpOf::VReadfirstlane { dst, src }),
    {
        self.push(OpOf::VReadfirstlane { dst, src });
    }

    /// VCC is where `src == imm`.
    pub fn v_cmp_eq_u32_imm(&mut self, src: VReg, imm: u32)
        ensures
            final(self)@ == old(self)@.with_op(OpOf::VCmpEqU32Imm { src, imm }),
    {
        self.push(OpOf::VCmpEqU32Imm { src, imm });
    }

    /// `dst = src0 - imm`.
    pub fn s_sub_u32(&mut self, dst: SReg, src0: SReg, imm: i32)
        ensures
            final(self)@ == old(self)@.with_op(
                OpOf::SSubU32 { dst, src0, src1: SOperand::InlineInt(imm) },
            ),
    {
        self.push(OpOf::SSubU32 { dst, src0, src1: SOperand::InlineInt(imm) });
    }

    /// `dst = src0 & src1`.
    pub fn s_and_b32(&mut self, dst: SReg, src0: SReg, src1: SReg)
        ensures
            final(self)@ == old(self)@.with_op(
                OpOf::SAndB32 { dst, src0, src1: SOperand::SReg(src1) },
            ),
    {
        self.push(OpOf::SAndB32 { dst, src0, src1: SOperand::SReg(src1) });
    }

    /// `dst = src0 + src1`; signed and unsigned addition are the same.
    pub fn s_add_i32(&mut self, dst: SReg, src0: SReg, src1: SReg)
        ensures
            final(self)@ == old(self)@.with_op(
                OpOf::SAddU32 { dst, src0, src1: SOperand::SReg(src1) },
            ),
    {
        self.push(OpOf::SAddU32 { dst, src0, src1: SOperand::SReg(src1) });
    }

    /// `dst = src0 * src1`.
    pub fn s_mul_i32(&mut self, dst: SReg, src0: SReg, src1: SReg)
        ensures
            final(self)@ == old(self)@.with_op(OpOf::SMulI32 { dst, src0, src1 }),
    {
        self.push(OpOf::SMulI32 { dst, src0, src1 });
    }

    /// `dst = max(src0, src1)`.
    pub fn v_max_f32(&mut self, dst: VReg, src0: VReg, src1: VReg)
        ensures
            final(self)@ == old(self)@.with_op(
                OpOf::VMaxF32 { dst, src0: Operand::VReg(src0), src1: Operand::VReg(src1) },
            ),
    {
        self.push(OpOf::VMaxF32 { dst, src0: Operand::VReg(src0), src1: Operand::VReg(src1) });
    }

    /// `dst = min(src0, src1)`.
    pub fn v_min_f32(&mut self, dst: VReg, src0: VReg, src1: VReg)
        ensures
            final(self)@ == old(self)@.with_op(
                OpOf::VMinF32 { dst, src0: Operand::VReg(src0), src1: Operand::VReg(src1) },
            ),
    {
        self.push(OpOf::VMinF32 { dst, src0: Operand::VReg(src0), src1: Operand::VReg(src1) });
    }

    /// `dst = min(src0, src1)`, unsigned.
    pub fn v_min_u32(&mut self, dst: VReg, src0: VReg, src1: VReg)
        ensures
            final(self)@ == old(self)@.with_op(
                OpOf::VMinU32 { dst, src0: Operand::VReg(src0), src1: Operand::VReg(src1) },
            ),
    {
        self.push(OpOf::VMinU32 { dst, src0: Operand::VReg(src0), src1: Operand::VReg(src1) });
    }

    /// `dst = src0 & src1`.
    pub fn v_and_b32(&mut self, dst: VReg, src0: VReg, src1: VReg)
        ensures
            final(self)@ == old(self)@.with_op(
                OpOf::VAndB32 { dst, src0: Operand::VReg(src0), src1: Operand::VReg(src1) },
            ),
    {
        self.push(OpOf::VAndB32 { dst, src0: Operand::VReg(src0), src1: Operand::VReg(src1) });
    }

    /// Matrix multiply-accumulate, bf16 inputs and f32 accumulator: `dst = a * b + c`.
    pub fn wmma_bf16_f32(&mut self, dst: VReg, a: VReg, b: VReg, c: VReg)
        ensures
            final(self)@ == old(self)@.with_op(
                OpOf::Wmma { dst, a, b, c, format: WmmaFormat::BF16_F32 },
            ),
    {
        self.push(OpOf::Wmma { dst, a, b, c, format: WmmaFormat::BF16_F32 });
    }

    /// Marks the target of branches.
    pub fn label(&mut self, name: &str)
        ensures
            final(self)@ == old(self)@.with_op(OpOf::Label(name@)),
    {
        self.push(OpOf::Label(name.to_string()));
    }

    /// Branches if SCC is set.
    pub fn branch_scc1(&mut self, target: &str)
        ensures
            final(self)@ == old(self)@.with_op(OpOf::BranchScc1(target@)),
    {
        self.push(OpOf::BranchScc1(target.to_string()));
    }

    /// Branches.
    pub fn branch(&mut self, target: &str)
        ensures
            final(self)@ == old(self)@.with_op(OpOf::Branch(target@)),
    {
        self.push(OpOf::Branch(target.to_string()));
    }

    /// Waits for the other waves of the workgroup.
    pub fn barrier(&mut self)
        ensures
            final(self)@ == old(self)@.with_op(OpOf::Barrier),
    {
        self.push(OpOf::Barrier);
    }

    /// Waits until at most `n` global accesses are outstanding.
    pub fn wait_vmcnt(&mut self, n: u8)
        ensures
            final(self)@ == old(self)@.with_op(OpOf::WaitVmcnt(n)),
    {
        self.push(OpOf::WaitVmcnt(n));
    }

    /// Waits until at most `n` local or scalar accesses are outstanding.
    pub fn wait_lgkmcnt(&mut self, n: u8)
        ensures
            final(self)@ == old(self)@.with_op(OpOf::WaitLgkmcnt(n)),
    {
        self.push(OpOf::WaitLgkmcnt(n));
    }

    /// Waits until at most `n` global stores are outstanding.
    pub fn wait_vscnt(&mut self, n: u8)
        ensures
            final(self)@ == old(self)@.with_op(OpOf::WaitVscnt(n)),
    {
        self.push(OpOf::WaitVscnt(n));
    }

    /// Clears VCC, so that no carry is left over.
    pub fn clear_vcc(&mut self)
        ensures
            final(self)@ == old(self)@.with_op(OpOf::ClearVcc),
    {
        self.push(OpOf::ClearVcc);
    }

    /// Ends the program.
    pub fn endpgm(&mut self)
        ensures
            final(self)@ == old(self)@.with_op(OpOf::Endpgm),
    {
        self.push(OpOf::Endpgm);
    }

    /// Puts a line of assembly in as it is.
    pub fn raw_asm(&mut self, text: &str)
        ensures
            final(self)@ == old(self)@.with_op(OpOf::RawAsm(text@)),
    {
        self.push(OpOf::RawAsm(text.to_string()));
    }

    /// Reads another lane of `src`, chosen by `offset`.
    pub fn ds_swizzle(&mut self, dst: VReg, src: VReg, offset: u16)
        ensures
            final(self)@ == old(self)@.with_op(OpOf::DsSwizzle { dst, src, offset }),
    {
        self.push(OpOf::DsSwizzle { dst, src, offset });
    }

    /// `dst = 1 / sqrt(src)`.
    pub fn v_rsq_f32(&mut self, dst: VReg, src: VReg)
        ensures
            final(self)@ == old(self)@.with_op(OpOf::VRsqF32 { dst, src }),
    {
        self.push(OpOf::VRsqF32 { dst, src });
    }

    /// Sums `val` over the 32 lanes, in place; `tmp` is scratch.
    pub fn wave_reduce_add_f32(&mut self, val: VReg, tmp: VReg)
        ensures
            final(self)@ == old(self)@.with_op(OpOf::WaveReduceAddF32 { val, tmp }),
    {
        self.push(OpOf::WaveReduceAddF32 { val, tmp });
    }

    /// The maximum of `val` over the 32 lanes, in place; `tmp` is scratch.
    pub fn wave_reduce_max_f32(&mut self, val: VReg, tmp: VReg)
        ensures
            final(self)@ == old(self)@.with_op(OpOf::WaveReduceMaxF32 { val, tmp }),
    {
        self.push(OpOf::WaveReduceMaxF32 { val, tmp });
    }

    /// The minimum of `val` over the 32 lanes, in place; `tmp` is scratch.
    pub fn wave_reduce_min_f32(&mut self, val: VReg, tmp: VReg)
        ensures
            final(self)@ == old(self)@.with_op(OpOf::WaveReduceMinF32 { val, tmp }),
    {
        self.push(OpOf::WaveReduceMinF32 { val, tmp });
    }

    /// Packs two f32 into bf16x2, `src0` in the low half.
    pub fn cvt_pk_bf16_f32(&mut self, dst: VReg, src0: VReg, src1: VReg)
        ensures
            final(self)@ == old(self)@.with_op(OpOf::CvtPkBf16F32 { dst, src0, src1 }),
    {
        self.push(OpOf::CvtPkBf16F32 { dst, src0, src1 });
    }

    /// `dst = 2^src`.
    pub fn v_exp_f32(&mut self, dst: VReg, src: VReg)
        ensures
            final(self)@ == old(self)@.with_op(OpOf::VExpF32 { dst, src }),
    {
        self.push(OpOf::VExpF32 { dst, src });
    }

    /// `dst = sin(2 pi src)`.
    pub fn v_sin_f32(&mut self, dst: VReg, src: VReg)
        ensures
            final(self)@ == old(self)@.with_op(OpOf::VSinF32 { dst, src }),
    {
        self.push(OpOf::VSinF32 { dst, src });
    }

    /// `dst = cos(2 pi src)`.
    pub fn v_cos_f32(&mut self, dst: VReg, src: VReg)
        ensures
            final(self)@ == old(self)@.with_op(OpOf::VCosF32 { dst, src }),
    {
        self.push(OpOf::VCosF32 { dst, src });
    }

    /// `dst = log2(src)`.
    pub fn v_log_f32(&mut self, dst: VReg, src: VReg)
        ensures
            final(self)@ == old(self)@.with_op(OpOf::VLog2F32 { dst, src }),
    {
        self.push(OpOf::VLog2F32 { dst, src });
    }

    /// `dst = 1 / src`.
    pub fn v_rcp_f32(&mut self, dst: VReg, src: VReg)
        ensures
            final(self)@ == old(self)@.with_op(OpOf::VRcpF32 { dst, src }),
    {
        self.push(OpOf::VRcpF32 { dst, src });
    }

    /// `dst = src0 ^ src1`.
    pub fn v_xor_b32(&mut self, dst: VReg, src0: Operand, src1: Operand)
        ensures
            final(self)@ == old(self)@.with_op(OpOf::VXorB32 { dst, src0, src1 }),
    {
        self.push(OpOf::VXorB32 { dst, src0, src1 });
    }

    /// `dst = src0 - src1`.
    pub fn v_sub_f32(&mut self, dst: VReg, src0: VReg, src1: VReg)
        ensures
            final(self)@ == old(self)@.with_op(
                OpOf::VSubF32 { dst, src0: Operand::VReg(src0), src1: Operand::VReg(src1) },
            ),
    {
        self.push(OpOf::VSubF32 { dst, src0: Operand::VReg(src0), src1: Operand::VReg(src1) });
    }

    /// Converts an unsigned integer to a float.
    pub fn v_cvt_f32_u32(&mut self, dst: VReg, src: VReg)
        ensures
            final(self)@ == old(self)@.with_op(OpOf::VCvtF32U32 { dst, src }),
    {
        self.push(OpOf::VCvtF32U32 { dst, src });
    }

    /// Converts a float to an unsigned integer, truncating.
    pub fn v_cvt_u32_f32(&mut self, dst: VReg, src: VReg)
        ensures
            final(self)@ == old(self)@.with_op(OpOf::VCvtU32F32 { dst, src }),
    {
        self.push(OpOf::VCvtU32F32 { dst, src });
    }

    /// `dst = src0 - src1`, unsigned.
    pub fn v_sub_u32(&mut self, dst: VReg, src0: VReg, src1: VReg)
        ensures
            final(self)@ == old(self)@.with_op(
                OpOf::VSubU32 { dst, src0: Operand::VReg(src0), src1: Operand::VReg(src1) },
            ),
    {
        self.push(OpOf::VSubU32 { dst, src0: Operand::VReg(src0), src1: Operand::VReg(src1) });
    }

    /// VCC is where `src0 >= src1`, unsigned.
    pub fn v_cmp_ge_u32(&mut self, src0: Operand, src1: Operand)
        ensures
            final(self)@ == old(self)@.with_op(OpOf::VCmpGeU32 { src0, src1 }),
    {
        self.push(OpOf::VCmpGeU32 { src0, src1 });
    }

    /// VCC is where `src0 == src1`.
    pub fn v_cmp_eq_f32(&mut self, src0: VReg, src1: VReg)
        ensures
            final(self)@ == old(self)@.with_op(
                OpOf::VCmpEqF32 { src0: Operand::VReg(src0), src1: Operand::VReg(src1) },
            ),
    {
        self.push(OpOf::VCmpEqF32 { src0: Operand::VReg(src0), src1: Operand::VReg(src1) });
    }

    /// VCC is where `src0 > src1`.
    pub fn v_cmp_gt_f32(&mut self, src0: VReg, src1: VReg)
        ensures
            final(self)@ == old(self)@.with_op(
                OpOf::VCmpGtF32 { src0: Operand::VReg(src0), src1: Operand::VReg(src1) },
            ),
    {
        self.push(OpOf::VCmpGtF32 { src0: Operand::VReg(src0), src1: Operand::VReg(src1) });
    }

    /// VCC is where `src0 < src1`.
    pub fn v_cmp_lt_f32(&mut self, src0: Operand, src1: Operand)
        ensures
            final(self)@ == old(self)@.with_op(OpOf::VCmpLtF32 { src0, src1 }),
    {
        self.push(OpOf::VCmpLtF32 { src0, src1 });
    }

    /// VCC is where `src0 >= src1`.
    pub fn v_cmp_ge_f32(&mut self, src0: Operand, src1: Operand)
        ensures
            final(self)@ == old(self)@.with_op(OpOf::VCmpGeF32 { src0, src1 }),
    {
        self.push(OpOf::VCmpGeF32 { src0, src1 });
    }

    /// VCC is where `src0 == src1`, unsigned.
    pub fn v_cmp_eq_u32(&mut self, src0: Operand, src1: Operand)
        ensures
            final(self)@ == old(self)@.with_op(OpOf::VCmpEqU32 { src0, src1 }),
    {
        self.push(OpOf::VCmpEqU32 { src0, src1 });
    }

    /// VCC is where `src > 0`.
    pub fn v_cmp_gt_f32_imm0(&mut self, src: VReg)
        ensures
            final(self)@ == old(self)@.with_op(OpOf::VCmpGtF32Imm0 { src }),
    {
        self.push(OpOf::VCmpGtF32Imm0 { src });
    }

    /// `dst` is `src_true` where VCC is set, else `src_false`.
    pub fn v_cndmask_b32(&mut self, dst: VReg, src_false: Operand, src_true: Operand)
        ensures
            final(self)@ == old(self)@.with_op(OpOf::VCndmaskB32 { dst, src_false, src_true }),
    {
        self.push(OpOf::VCndmaskB32 { dst, src_false, src_true });
    }

    /// Stores the low 16 bits of `src` at `vaddr + offset`.
    pub fn ds_store_b16(&mut self, vaddr: VReg, src: VReg, offset: u16)
        ensures
            final(self)@ == old(self)@.with_op(OpOf::DsStoreB16 { vaddr, src, offset }),
    {
        self.push(OpOf::DsStoreB16 { vaddr, src, offset });
    }

    /// Stores 32 bits at `vaddr + offset`.
    pub fn ds_store_b32(&mut self, vaddr: VReg, src: VReg, offset: u16)
        ensures
            final(self)@ == old(self)@.with_op(OpOf::DsStoreB32 { vaddr, src, offset }),
    {
        self.push(OpOf::DsStoreB32 { vaddr, src, offset });
    }

    /// Stores two registers from `src` on at `vaddr + offset`.
    pub fn ds_store_b64(&mut self, vaddr: VReg, src: VReg, offset: u16)
        ensures
            final(self)@ == old(self)@.with_op(OpOf::DsStoreB64 { vaddr, src, offset }),
    {
        self.push(OpOf::DsStoreB64 { vaddr, src, offset });
    }

    /// Stores four registers from `src` on at `vaddr + offset`.
    pub fn ds_store_b128(&mut self, vaddr: VReg, src: VReg, offset: u16)
        ensures
            final(self)@ == old(self)@.with_op(OpOf::DsStoreB128 { vaddr, src, offset }),
    {
        self.push(OpOf::DsStoreB128 { vaddr, src, offset });
    }

    /// Loads 32 bits from `vaddr + offset`.
    pub fn ds_load_b32(&mut self, dst: VReg, vaddr: VReg, offset: u16)
        ensures
            final(self)@ == old(self)@.with_op(OpOf::DsLoadB32 { dst, vaddr, offset }),
    {
        self.push(OpOf::DsLoadB32 { dst, vaddr, offset });
    }

    /// Loads two registers from `vaddr + offset`.
    pub fn ds_load_b64(&mut self, dst: VReg, vaddr: VReg, offset: u16)
        ensures
            final(self)@ == old(self)@.with_op(OpOf::DsLoadB64 { dst, vaddr, offset }),
    {
        self.push(OpOf::DsLoadB64 { dst, vaddr, offset });
    }

    /// Loads four registers from `vaddr + offset`.
    pub fn ds_load_b128(&mut self, dst: VReg, vaddr: VReg, offset: u16)
        ensures
            final(self)@ == old(self)@.with_op(OpOf::DsLoadB128 { dst, vaddr, offset }),
    {
        self.push(OpOf::DsLoadB128 { dst, vaddr, offset });
    }

    /// Loads 16 bits from `vaddr + offset`, zero-extended.
    pub fn ds_load_u16(&mut self, dst: VReg, vaddr: VReg, offset: u16)
        ensures
            final(self)@ == old(self)@.with_op(OpOf::DsLoadU16 { dst, vaddr, offset }),
    {
        self.push(OpOf::DsLoadU16 { dst, vaddr, offset });
    }

    /// Loads 16 bits into the low half of `dst`.
    pub fn ds_load_u16_d16(&mut self, dst: VReg, vaddr: VReg, offset: u16)
        ensures
            final(self)@ == old(self)@.with_op(OpOf::DsLoadU16D16 { dst, vaddr, offset }),
    {
        self.push(OpOf::DsLoadU16D16 { dst, vaddr, offset });
    }

    /// Loads 16 bits into the high half of `dst`.
    pub fn ds_load_u16_d16_hi(&mut self, dst: VReg, vaddr: VReg, offset: u16)
        ensures
            final(self)@ == old(self)@.with_op(OpOf::DsLoadU16D16Hi { dst, vaddr, offset }),
    {
        self.push(OpOf::DsLoadU16D16Hi { dst, vaddr, offset });
    }

    /// Waits for the other waves of the workgroup.
    pub fn s_barrier(&mut self)
        ensures
            final(self)@ == old(self)@.with_op(OpOf::SBarrier),
    {
        self.push(OpOf::SBarrier);
    }

    /// Branches if SCC is clear.
    pub fn branch_scc0(&mut self, target: &str)
        ensures
            final(self)@ == old(self)@.with_op(OpOf::BranchScc0(target@)),
    {
        self.push(OpOf::BranchScc0(target.to_string()));
    }

    /// Branches if VCC is zero.
    pub fn branch_vccz(&mut self, target: &str)
        ensures
            final(self)@ == old(self)@.with_op(OpOf::BranchVccz(target@)),
    {
        self.push(OpOf::BranchVccz(target.to_string()));
    }

    /// `dst = src0 | src1`.
    pub fn v_or_b32(&mut self, dst: VReg, src0: Operand, src1: Operand)
        ensures
            final(self)@ == old(self)@.with_op(OpOf::VOrB32 { dst, src0, src1 }),
    {
        self.push(OpOf::VOrB32 { dst, src0, src1 });
    }

    /// `dst = sqrt(src)`.
    pub fn v_sqrt_f32(&mut self, dst: VReg, src: VReg)
        ensures
            final(self)@ == old(self)@.with_op(OpOf::VSqrtF32 { dst, src }),
    {
        self.push(OpOf::VSqrtF32 { dst, src });
    }

    /// VCC is where `src > imm`, unsigned.
    pub fn v_cmp_gt_u32_imm(&mut self, src: VReg, imm: u32)
        ensures
            final(self)@ == old(self)@.with_op(OpOf::VCmpGtU32Imm { src, imm }),
    {
        self.push(OpOf::VCmpGtU32Imm { src, imm });
    }

    /// VCC is where `src0 > src1`, unsigned.
    pub fn v_cmp_gt_u32(&mut self, src0: Operand, src1: Operand)
        ensures
            final(self)@ == old(self)@.with_op(OpOf::VCmpGtU32 { src0, src1 }),
    {
        self.push(OpOf::VCmpGtU32 { src0, src1 });
    }

    /// VCC is where `src0 >= src1`, signed.
    pub fn v_cmp_ge_i32(&mut self, src0: VReg, src1: VReg)
        ensures
            final(self)@ == old(self)@.with_op(OpOf::VCmpGeI32 { src0, src1 }),
    {
        self.push(OpOf::VCmpGeI32 { src0, src1 });
    }

    /// Adds `src` to the word at `addr + offset` in global memory.
    pub fn global_atomic_add_f32(&mut self, addr: VReg, src: VReg, offset: i32)
        ensures
            final(self)@ == old(self)@.with_op(OpOf::GlobalAtomicAddF32 { addr, src, offset }),
    {
        self.push(OpOf::GlobalAtomicAddF32 { addr, src, offset });
    }

    /// Swaps each lane with the lane 16 away.
    pub fn v_permlanex16(&mut self, dst: VReg, src: VReg)
        ensures
            final(self)@ == old(self)@.with_op(OpOf::VPermlanex16B32 { dst, src }),
    {
        self.push(OpOf::VPermlanex16B32 { dst, src });
    }

    /// `dst = (src0 & literal) | src2`.
    pub fn v_and_or_b32(&mut self, dst: VReg, src0: VReg, literal: u32, src2: VReg)
        ensures
            final(self)@ == old(self)@.with_op(OpOf::VAndOrB32 { dst, src0, literal, src2 }),
    {
        self.push(OpOf::VAndOrB32 { dst, src0, literal, src2 });
    }

    /// The low half of a 64-bit addition; the carry goes to VCC.
    pub fn v_add_co_u32(&mut self, dst: VReg, src0: VReg, src1: VReg)
        ensures
            final(self)@ == old(self)@.with_op(OpOf::VAddCOU32 { dst, src0, src1 }),
    {
        self.push(OpOf::VAddCOU32 { dst, src0, src1 });
    }

    /// The high half of a 64-bit addition; the carry comes from VCC.
    pub fn v_add_co_ci_u32(&mut self, dst: VReg, src: VReg)
        ensures
            final(self)@ == old(self)@.with_op(OpOf::VAddCCU32 { dst, src }),
    {
        self.push(OpOf::VAddCCU32 { dst, src });
    }

    /// VCC is where `src0 < src1`, unsigned.
    pub fn v_cmp_lt_u32(&mut self, src0: Operand, src1: Operand)
        ensures
            final(self)@ == old(self)@.with_op(OpOf::VCmpLtU32 { src0, src1 }),
    {
        self.push(OpOf::VCmpLtU32 { src0, src1 });
    }

    /// Saves EXEC in `dst` and keeps only the lanes of VCC.
    pub fn save_exec(&mut self, dst: SReg)
        ensures
            final(self)@ == old(self)@.with_op(OpOf::SaveExec { dst }),
    {
        self.push(OpOf::SaveExec { dst });
    }

    /// Restores EXEC.
    pub fn restore_exec(&mut self, src: SReg)
        ensures
            final(self)@ == old(self)@.with_op(OpOf::RestoreExec { src }),
    {
        self.push(OpOf::RestoreExec { src });
    }

    /// Copies the workgroup number along x.
    pub fn capture_tgid_x(&mut self, dst: SReg)
        ensures
            final(self)@ == old(self)@.with_op(OpOf::CaptureTgid { dst, axis: 0 }),
    {
        self.push(OpOf::CaptureTgid { dst, axis: 0 });
    }

    /// Copies the workgroup number along y.
    pub fn capture_tgid_y(&mut self, dst: SReg)
        ensures
            final(self)@ == old(self)@.with_op(OpOf::CaptureTgid { dst, axis: 1 }),
    {
        self.push(OpOf::CaptureTgid { dst, axis: 1 });
    }

    /// Copies the workgroup number along z.
    pub fn capture_tgid_z(&mut self, dst: SReg)
        ensures
            final(self)@ == old(self)@.with_op(OpOf::CaptureTgid { dst, axis: 2 }),
    {
        self.push(OpOf::CaptureTgid { dst, axis: 2 });
    }

    /// Adds an offset to a 64-bit address in two consecutive registers.
    pub fn addr64_add(&mut self, addr_lo: VReg, addr_hi: VReg, offset: VReg)
        requires
            addr_hi.0 == addr_lo.0 + 1,
        ensures
            final(self)@ == old(self)@.with_op(
                OpOf::VAddCOU32 { dst: addr_lo, src0: addr_lo, src1: offset },
            ).with_op(OpOf::VAddCCU32 { dst: addr_hi, src: addr_hi }),
    {
        self.v_add_co_u32(addr_lo, addr_lo, offset);
        self.v_add_co_ci_u32(addr_hi, addr_hi);
    }

    /// Turns eight registers in accumulator layout into eight in matrix input layout, by
    /// vector operations alone. `tmp` is the first of three scratch registers.
    pub fn reg_transpose_c_to_ab(&mut self, dst: VReg, src: VReg, tmp: VReg)
        requires
            dst.0 + 7 <= u32::MAX,
            src.0 + 7 <= u32::MAX,
            tmp.0 + 2 <= u32::MAX,
        ensures
            final(self)@ == old(self)@.with_ops(transpose_ops(dst, src, tmp)),
    {
        let ghost before = self@;
        let lane_tmp = VReg(tmp.0 + 2);
        self.v_and_b32_imm(lane_tmp, VReg(0), 31);
        self.push(
            OpOf::VCmpLtU32 { src0: Operand::VReg(lane_tmp), src1: Operand::InlineInt(16) },
        );
        let ghost head = transpose_ops(dst, src, tmp).take(2);
        assert(self@ =~= before.with_ops(head));
        let mut i: u32 = 0;
        while i < 8
            invariant
                i <= 8,
                dst.0 + 7 <= u32::MAX,
                src.0 + 7 <= u32::MAX,
                self@ == before.with_ops(transpose_ops(dst, src, tmp).take(2 + i)),
            decreases 8 - i,
        {
            self.v_permlanex16(VReg(dst.0 + i), VReg(src.0 + i));
            i = i + 1;
            assert(self@ =~= before.with_ops(transpose_ops(dst, src, tmp).take(2 + i)));
        }
        let ghost swapped = transpose_ops(dst, src, tmp).take(10);
        let val_o = VReg(tmp.0 + 1);
        let pack_tmp = VReg(tmp.0 + 2);
        let mut k: u32 = 0;
        assert(swapped + pack_all(dst, src, tmp, 0) =~= swapped);
        while k < 8
            invariant
                k <= 8,
                dst.0 + 7 <= u32::MAX,
                src.0 + 7 <= u32::MAX,
                tmp.0 + 2 <= u32::MAX,
                val_o == VReg((tmp.0 + 1) as u32),
                pack_tmp == VReg((tmp.0 + 2) as u32),
                self@ == before.with_ops(swapped + pack_all(dst, src, tmp, k as nat)),
            decreases 8 - k,
        {
            let s = VReg(src.0 + k);
            let d = VReg(dst.0 + k);
            self.v_cndmask_b32(tmp, Operand::VReg(d), Operand::VReg(s));
            self.v_cndmask_b32(val_o, Operand::VReg(s), Operand::VReg(d));
            self.v_lshrrev_b32(pack_tmp, 16, tmp);
            self.v_and_or_b32(d, val_o, 0xFFFF_0000, pack_tmp);
            k = k + 1;
            assert(self@ =~= before.with_ops(swapped + pack_all(dst, src, tmp, k as nat)));
        }
        assert(swapped + pack_all(dst, src, tmp, 8) =~= transpose_ops(dst, src, tmp));
    }

    /// Masks out the lanes where `global_id >= n_elems`. Returns the register with the
    /// mask to restore.
    pub fn bounds_check_begin(&mut self, global_id: VReg, n_elems: VReg) -> (r: SReg)
        requires
            old(self)@.wf(),
            old(self)@.next_sreg < u32::MAX,
        ensures
            r == SReg(old(self)@.next_sreg as u32),
            final(self)@ == old(self)@.with_sregs(1, Alignment::Align1).with_op(
                OpOf::VCmpLtU32 {
                    src0: Operand::VReg(global_id),
                    src1: Operand::VReg(n_elems),
                },
            ).with_op(OpOf::SaveExec { dst: r }),
            final(self)@.wf(),
    {
        let saved = self.alloc_sreg();
        self.push(
            OpOf::VCmpLtU32 { src0: Operand::VReg(global_id), src1: Operand::VReg(n_elems) },
        );
        self.save_exec(saved);
        saved
    }

    /// Brings the masked lanes back.
    pub fn bounds_check_end(&mut self, saved: SReg)
        ensures
            final(self)@ == old(self)@.with_op(OpOf::RestoreExec { src: saved }),
    {
        self.restore_exec(saved);
    }

    /// Computes the thread number within the grid, and records the workgroup size.
    pub fn compute_global_id_x(&mut self, wg_size: u32) -> (r: VReg)
        requires
            old(self)@.wf(),
            old(self)@.next_vreg < u32::MAX,
        ensures
            r == VReg(old(self)@.next_vreg as u32),
            final(self)@ == (KernelState { wg_size, ..old(self)@ }).with_vregs(
                1,
                Alignment::Align1,
            ).with_op(OpOf::ComputeGlobalIdX { dst: r, wg_size }),
            final(self)@.wf(),
    {
        self.set_wg_size(wg_size);
        let global_id = self.alloc_vreg();
        self.push(OpOf::ComputeGlobalIdX { dst: global_id, wg_size });
        global_id
    }

    /// Loads all declared arguments into their registers and waits for them.
    pub fn emit_arg_loads(&mut self)
        ensures
            final(self)@ == old(self)@.with_ops(arg_load_ops(old(self)@.args)).with_op(
                OpOf::WaitLgkmcnt(0),
            ),
    {
        let ghost args = self@.args;
        let mut i: usize = 0;
        assert(self@ =~= old(self)@.with_ops(arg_load_ops(args).take(0)));
        while i < self.args.len()
            invariant
                i <= self.args@.len(),
                args == self@.args,
                args == arg_texts(self.args@),
                self@ == old(self)@.with_ops(arg_load_ops(args).take(i as int)),
            decreases self.args@.len() - i,
        {
            let dst = self.args[i].sreg;
            let offset: u32 = self.args[i].offset;
            let width = match self.args[i].kind {
                ArgKind::Ptr => Width::B64,
                _ => Width::B32,
            };
            assert(args[i as int] == self.args@[i as int]@);
            self.scalar_load(dst, SRegPair(Self::KERNARG_BASE_SENTINEL), offset, width);
            i = i + 1;
            assert(arg_load_ops(args).take(i as int) =~= arg_load_ops(args).take(i - 1).push(
                arg_load_ops(args)[i - 1],
            ));
            assert(self@ =~= old(self)@.with_ops(arg_load_ops(args).take(i as int)));
        }
        assert(arg_load_ops(args).take(i as int) =~= arg_load_ops(args));
        self.wait_lgkmcnt(0);
    }

    // ── Accessors ──
    /// Size of the argument buffer in bytes.
    pub fn kernarg_size(&self) -> (r: u32)
        ensures
            r == self@.kernarg_size,
    {
        self.kernarg_size
    }

    /// The declared arguments.
    pub fn args(&self) -> (r: &[KernArg])
        ensures
            arg_texts(r@) == self@.args,
    {
        self.args.as_slice()
    }

    /// Size of the local data share in bytes.
    pub fn lds_size(&self) -> (r: u32)
        ensures
            r == self@.lds_size,
    {
        self.lds_size
    }

    /// The operations.
    pub fn ops(&self) -> (r: &[Op])
        ensures
            op_texts(r@) == self@.ops,
            r@ == self.raw_ops(),
    {
        self.ops.as_slice()
    }

    /// Threads per workgroup.
    pub fn wg_size(&self) -> (r: u32)
        ensures
            r == self@.wg_size,
    {
        self.wg_size
    }

    /// Sets the workgroup size.
    pub fn set_wg_size(&mut self, size: u32)
        ensures
            final(self)@ == (KernelState { wg_size: size, ..old(self)@ }),
    {
        self.wg_size = size;
    }

    /// Keeps the operations exactly as they are.
    pub fn set_skip_optimize(&mut self, skip: bool)
        ensures
            final(self)@ == (KernelState { skip_optimize: skip, ..old(self)@ }),
    {
        self.skip_optimize = skip;
    }

    /// Chooses how registers are placed: sharing places where lives do not meet, or with a
    /// place for each.
    pub fn set_ssa_regalloc(&mut self, enable: bool)
        ensures
            final(self)@ == (KernelState { use_ssa_regalloc: enable, ..old(self)@ }),
    {
        self.use_ssa_regalloc = enable;
    }

    /// Sets the optimization level of this kernel.
    pub fn set_opt_level(&mut self, level: u32)
        ensures
            final(self)@ == (KernelState { opt_level: Some(level), ..old(self)@ }),
    {
        self.opt_level = Some(level);
    }

    /// Keeps common subexpressions.
    pub fn set_skip_cse(&mut self, skip: bool)
        ensures
            final(self)@ == (KernelState { skip_cse: skip, ..old(self)@ }),
    {
        self.skip_cse = skip;
    }

    /// Registers vector registers that have to stay consecutive. Returns the group's
    /// number.
    pub fn mark_coalesced_group(&mut self, base: VReg, count: u32) -> (r: u32)
        requires
            old(self)@.next_group < u32::MAX,
        ensures
            r == old(self)@.next_group,
            final(self)@ == old(self)@.with_group(base, count),
            old(self)@.wf() ==> final(self)@.wf(),
    {
        let id: u32 = self.next_coalesced_group_id;
        self.next_coalesced_group_id = self.next_coalesced_group_id + 1;
        self.coalesced_groups.push(CoalescedGroup { id, base_vreg: base, count });
        id
    }

    /// The groups that have to stay consecutive.
    pub fn coalesced_groups(&self) -> (r: &[CoalescedGroup])
        ensures
            r@ == self@.coalesced_groups,
    {
        self.coalesced_groups.as_slice()
    }

    /// The operations themselves.
    pub closed spec fn raw_ops(self) -> Seq<Op> {
        self.ops@
    }
}

/// The operations of a kernel and what it is seen as hold the same.
pub proof fn raw_ops_are_ops(k: T0Kernel)
    ensures
        k@.ops == op_texts(k.raw_ops()),
{
}

/// A label name: the prefix and a number.
pub open spec fn label_name(prefix: Seq<char>, id: nat) -> Seq<char> {
    prefix + "_"@ + dec(id)
}

// ── Labels ──
/// No two labels of a kernel are the same, whatever their prefixes.
pub proof fn labels_are_unique(p: Seq<char>, q: Seq<char>, i: nat, j: nat)
    requires
        i != j,
    ensures
        label_name(p, i) != label_name(q, j),
{
    reveal_strlit("_");
    let a = label_name(p, i);
    let b = label_name(q, j);
    if a == b {
        digits_only(i);
        digits_only(j);
        let n = a.len();
        let di = dec(i).len();
        let dj = dec(j).len();
        if di == dj {
            assert(dec(i) =~= a.subrange(n - di, n as int));
            assert(dec(j) =~= b.subrange(n - dj, n as int));
            dec_is_injective(i, j);
        } else if di < dj {
            assert(a[n - di - 1] == '_');
            assert(b[n - di - 1] == dec(j)[dj - di - 1]);
        } else {
            assert(b[n - dj - 1] == '_');
            assert(a[n - dj - 1] == dec(i)[di - dj - 1]);
        }
    }
}

// ── Validation ──
/// How many operations satisfy `f`.
pub open spec fn count_ops(ops: Seq<OpText>, f: spec_fn(OpText) -> bool) -> nat
    decreases ops.len(),
{
    if ops.len() == 0 {
        0
    } else {
        count_ops(ops.drop_last(), f) + if f(ops.last()) {
            1nat
        } else {
            0
        }
    }
}

/// Whether a kernel ends its program at its end.
pub open spec fn has_endpgm(ops: Seq<OpText>) -> bool {
    ops.len() > 0 && ops.last() is Endpgm
}

/// How often EXEC is saved.
pub open spec fn saves(ops: Seq<OpText>) -> nat {
    count_ops(ops, |op: OpText| op is SaveExec)
}

/// How often EXEC is restored.
pub open spec fn restores(ops: Seq<OpText>) -> nat {
    count_ops(ops, |op: OpText| op is RestoreExec)
}

/// How often EXEC is flipped to the other branch.
pub open spec fn flips(ops: Seq<OpText>) -> nat {
    count_ops(ops, |op: OpText| op is XorExec)
}

/// What is wrong with a kernel: it does not end, or its masks are not balanced, or its
/// arguments are not aligned.
pub open spec fn validation_error(k: KernelState) -> Option<Seq<char>> {
    let head = "[T0 validate] Kernel '"@ + k.name;
    if !has_endpgm(k.ops) {
        Some(head + "' missing s_endpgm — GPU will hang!"@)
    } else if saves(k.ops) != restores(k.ops) {
        Some(
            head + "' has "@ + dec(saves(k.ops)) + " SaveExec but "@ + dec(restores(k.ops))
                + " RestoreExec — EXEC mask will be corrupted!"@,
        )
    } else if flips(k.ops) > saves(k.ops) {
        Some(
            head + "' has "@ + dec(flips(k.ops)) + " XorExec but only "@ + dec(saves(k.ops))
                + " SaveExec — else-branch without matching if-start!"@,
        )
    } else if k.kernarg_size % 4 != 0 {
        Some(head + "' kernarg_size="@ + dec(k.kernarg_size) + " is not 4-byte aligned"@)
    } else {
        None
    }
}

/// Arguments laid out without gaps end at a multiple of four, so that alignment never
/// fails.
pub proof fn packed_arguments_are_aligned(args: Seq<KernArgText>, end: nat)
    requires
        args_packed(args, end),
    ensures
        end % 4 == 0,
    decreases args.len(),
{
    if args.len() > 0 {
        packed_arguments_are_aligned(args.drop_last(), args.last().offset as nat);
    }
}

/// Whether an operation changes which lanes take part.
pub open spec fn masks_lanes(op: OpText) -> bool {
    op is SaveExec || op is RestoreExec || op is XorExec
}

/// Whether no operation changes which lanes take part.
#[verifier::opaque]
pub open spec fn mask_free(ops: Seq<OpText>) -> bool {
    forall|i: int| 0 <= i < ops.len() ==> !masks_lanes(#[trigger] ops[i])
}

/// One more operation keeps that if it does not change it itself.
pub broadcast proof fn lemma_mask_free_push(ops: Seq<OpText>, op: OpText)
    ensures
        #[trigger] mask_free(ops.push(op)) == (mask_free(ops) && !masks_lanes(op)),
{
    reveal(mask_free);
    let more = ops.push(op);
    if mask_free(more) {
        assert(more[ops.len() as int] == op);
        assert forall|i: int| 0 <= i < ops.len() implies !masks_lanes(#[trigger] ops[i]) by {
            assert(more[i] == ops[i]);
        }
    }
}

/// Argument loads do not change which lanes take part.
pub proof fn lemma_mask_free_loads(ops: Seq<OpText>, args: Seq<KernArgText>)
    requires
        mask_free(ops),
    ensures
        mask_free(ops + arg_load_ops(args)),
{
    reveal(mask_free);
}

/// Such a kernel changes the mask as often as it changes it back: never.
pub proof fn lemma_mask_free_counts(ops: Seq<OpText>)
    requires
        mask_free(ops),
    ensures
        saves(ops) == 0,
        restores(ops) == 0,
        flips(ops) == 0,
    decreases ops.len(),
{
    reveal(mask_free);
    if ops.len() > 0 {
        assert(mask_free(ops.drop_last()));
        lemma_mask_free_counts(ops.drop_last());
        assert(!masks_lanes(ops[ops.len() - 1]));
    }
}

// ── Lowering ──
/// What can be set from outside a kernel.
#[derive(Clone, Copy, Debug, PartialEq, Eq, Structural)]
pub struct CompileOptions {
    /// Optimization level of kernels that set none.
    pub opt_level: u32,
    /// Which passes may run.
    pub passes: Passes,
    /// Whether to write dependency hints.
    pub delay_alu: bool,
}

impl Default for CompileOptions {
    fn default() -> (r: Self)
        ensures
            r.opt_level == 4,
            r.passes == Passes::all(),
            r.delay_alu,
    {
        CompileOptions { opt_level: 4, passes: Passes::default(), delay_alu: true }
    }
}

/// Which passes a kernel asks for.
pub open spec fn opt_config_of(k: KernelState, options: CompileOptions) -> OptConfig {
    OptConfig {
        level: match k.opt_level {
            Some(level) => level,
            None => options.opt_level,
        },
        passes: Passes { cse: options.passes.cse && !k.skip_cse, ..options.passes },
    }
}

/// The operations that a kernel is lowered to.
pub open spec fn lowered_ops(k: KernelState, ops: Seq<Op>, options: CompileOptions) -> Seq<Op> {
    if k.skip_optimize {
        ops
    } else {
        optimized(ops, k.coalesced_groups, opt_config_of(k, options)).0
    }
}

/// Whether an operation still names a register of a group.
pub open spec fn is_live(a: VRegAlloc, ops: Seq<Op>) -> bool {
    exists|id: u32| a.vreg.0 <= id < a.vreg.0 + a.count && #[trigger] names_vreg(ops, id)
}

/// The groups of which operations still name a register.
pub open spec fn live_allocs(allocs: Seq<VRegAlloc>, ops: Seq<Op>) -> Seq<VRegAlloc>
    decreases allocs.len(),
{
    if allocs.len() == 0 {
        Seq::empty()
    } else if is_live(allocs.last(), ops) {
        live_allocs(allocs.drop_last(), ops).push(allocs.last())
    } else {
        live_allocs(allocs.drop_last(), ops)
    }
}

/// Those of the numbers from `lo` to `hi` that operations name, as groups of one register.
pub open spec fn copy_allocs(ops: Seq<Op>, lo: int, hi: int) -> Seq<VRegAlloc>
    decreases hi - lo,
{
    if hi <= lo {
        Seq::empty()
    } else {
        let before = copy_allocs(ops, lo, hi - 1);
        if names_vreg(ops, (hi - 1) as u32) {
            before.push(
                VRegAlloc { vreg: VReg((hi - 1) as u32), count: 1, alignment: Alignment::Align1 },
            )
        } else {
            before
        }
    }
}

/// The end of the numbers that copies of registers have: behind those that the kernel handed
/// out, up to the largest that an operation names.
pub open spec fn copies_end(ops: Seq<Op>, next: nat) -> nat {
    let named = max_vreg(ops) + 1;
    if named < next {
        next
    } else if named <= u32::MAX {
        named
    } else {
        u32::MAX as nat
    }
}

/// The groups to be placed: those of which operations still name a register, and the copies of
/// registers that passes made.
pub open spec fn placed_allocs(k: KernelState, ops: Seq<Op>) -> Seq<VRegAlloc> {
    let live = live_allocs(k.vreg_allocs, ops);
    if k.skip_optimize {
        live
    } else {
        live + copy_allocs(ops, k.next_vreg as int, copies_end(ops, k.next_vreg) as int)
    }
}

/// The end of the numbers of those groups.
pub open spec fn allocs_end(k: KernelState, ops: Seq<Op>) -> nat {
    if k.skip_optimize {
        k.next_vreg
    } else {
        copies_end(ops, k.next_vreg)
    }
}

/// Whether registers are placed as a kernel declares them and its operations need them: with
/// a place for each, or sharing places where lives do not meet.
pub open spec fn registers_placed(k: KernelState, ops: Seq<Op>, ra: RegAlloc) -> bool {
    let vg = v_groups(placed_allocs(k, ops));
    let sg = s_groups(k.sreg_allocs);
    if k.use_ssa_regalloc {
        shared_allocation_of(ra, vg, sg, ops)
    } else {
        allocation_of(ra, vg, sg, ops)
    }
}

/// Whether there are too few physical registers of one kind.
pub open spec fn registers_exhausted(k: KernelState, ops: Seq<Op>, e: AllocError) -> bool {
    let vg = v_groups(placed_allocs(k, ops));
    let sg = s_groups(k.sreg_allocs);
    if k.use_ssa_regalloc {
        shared_exhausted(e, vg, sg, ops)
    } else {
        exhausted(e, vg, sg, ops)
    }
}

/// Why a kernel was not lowered.
pub enum LowerError {
    /// The kernel is not valid; the text says why.
    Invalid(String),
    /// There are too few registers, and what can move to the local data share does not help.
    Registers(AllocError),
    /// An operation cannot be written down with this placement: a range of registers is not
    /// consecutive, or a scalar load is 16 bits wide.
    NotEncodable(RegAlloc),
    /// The group of that number is not consecutive in this placement.
    Scattered(u32, RegAlloc),
    /// There are too many operations to count.
    TooLong,
}

/// A kernel ready to be written down.
pub struct Lowered {
    pub ops: Vec<Op>,
    pub alloc: RegAlloc,
    pub lds_size: u32,
}

/// How many operations can be written down.
pub const MAX_OPS: usize = 0x7FFF_FFFE;

/// What is said when there are too few registers.
pub open spec fn alloc_error_text(name: Seq<char>, e: AllocError) -> Seq<char> {
    "Kernel '"@ + name + match e {
        AllocError::OutOfVgprs => "' needs more than 254 vector registers"@,
        AllocError::OutOfSgprs => "' needs more than 106 scalar registers"@,
    }
}

/// What is said about a kernel that was not lowered.
pub open spec fn lower_error_text(name: Seq<char>, e: LowerError) -> Seq<char> {
    match e {
        LowerError::Invalid(text) => text@,
        LowerError::Registers(e) => alloc_error_text(name, e),
        LowerError::NotEncodable(_) => "Kernel '"@ + name
            + "' has an operation that cannot be encoded"@,
        LowerError::Scattered(id, _) => "Kernel '"@ + name
            + "' cannot keep coalesced group "@ + dec(id as nat) + " consecutive"@,
        LowerError::TooLong => "Kernel '"@ + name + "' has too many operations"@,
    }
}

/// What spilling starts from when a kernel has too few vector registers.
pub open spec fn spill_source(k: KernelState, ops: Seq<Op>) -> Source {
    Source {
        ops,
        allocs: placed_allocs(k, ops),
        sregs: k.sreg_allocs,
        fixed: k.coalesced_groups,
        next: allocs_end(k, ops),
        lds: k.lds_size,
        wg: k.wg_size,
    }
}

/// Whether vector registers do not suffice though they share places.
pub open spec fn needs_spilling(k: KernelState, ops: Seq<Op>) -> bool {
    k.use_ssa_regalloc && registers_exhausted(k, ops, AllocError::OutOfVgprs)
}

/// Whether a kernel is lowered as it is, with its registers in their places and its groups
/// consecutive.
pub open spec fn lowered_whole(k: KernelState, ops: Seq<Op>, l: Lowered) -> bool {
    &&& l.ops@ == ops
    &&& registers_placed(k, ops, l.alloc)
    &&& all_encodable(ops, l.alloc)
    &&& groups_kept(l.alloc, k.coalesced_groups)
    &&& l.lds_size == k.lds_size
}

/// The size of the local data share of a kernel: what it uses itself, and behind that the slots
/// of what is spilled.
pub open spec fn final_lds_size(k: KernelState, raw: Seq<Op>, options: CompileOptions) -> u32 {
    let ops = lowered_ops(k, raw, options);
    let s = spill_source(k, ops);
    match s.count_from(1) {
        Some(n) => if needs_spilling(k, ops) {
            (k.lds_size + s.plan(n).bytes()) as u32
        } else {
            k.lds_size
        },
        None => k.lds_size,
    }
}

/// Whether a kernel is lowered with as many groups of registers in the local data share as it
/// takes; their slots come behind what the kernel itself uses.
pub open spec fn lowered_spilled(k: KernelState, ops: Seq<Op>, l: Lowered) -> bool {
    let s = spill_source(k, ops);
    s.count_from(1) matches Some(n) && l.ops@ == s.ops_with(n) && s.placed_with(n, l.alloc)
        && l.lds_size == k.lds_size + s.plan(n).bytes()
}

/// What lowering promises of a kernel with operations `raw`.
pub open spec fn lowering_of(
    k: KernelState,
    raw: Seq<Op>,
    options: CompileOptions,
    r: Result<Lowered, LowerError>,
) -> bool {
    lowering_from(k, lowered_ops(k, raw, options), r)
}

/// What lowering promises of a kernel whose operations after all passes are `ops`.
pub open spec fn lowering_from(
    k: KernelState,
    ops: Seq<Op>,
    r: Result<Lowered, LowerError>,
) -> bool {
    match r {
        Ok(l) => {
            &&& validation_error(k) is None
            &&& if needs_spilling(k, ops) {
                lowered_spilled(k, ops, l)
            } else {
                lowered_whole(k, ops, l)
            }
            &&& all_encodable(l.ops@, l.alloc)
            &&& ops.len() <= MAX_OPS
            &&& l.ops@.len() <= MAX_OPS
        },
        Err(LowerError::Invalid(text)) => validation_error(k) == Some(text@),
        Err(LowerError::Registers(e)) => {
            &&& validation_error(k) is None
            &&& registers_exhausted(k, ops, e)
            &&& needs_spilling(k, ops) ==> spill_source(k, ops).count_from(1) is None
        },
        Err(LowerError::NotEncodable(ra)) => validation_error(k) is None && registers_placed(
            k,
            ops,
            ra,
        ) && !all_encodable(ops, ra),
        Err(LowerError::Scattered(id, ra)) => {
            &&& validation_error(k) is None
            &&& registers_placed(k, ops, ra)
            &&& all_encodable(ops, ra)
            &&& exists|i: int|
                0 <= i < k.coalesced_groups.len() && (#[trigger] k.coalesced_groups[i]).id == id
                    && !group_kept(ra, k.coalesced_groups[i])
        },
        Err(LowerError::TooLong) => validation_error(k) is None && ops.len() > MAX_OPS,
    }
}

/// A lowered kernel keeps every group of registers consecutive that has to stay so: those of
/// its registers that have a place have consecutive ones.
pub proof fn lowered_kernels_keep_groups(
    k: KernelState,
    raw: Seq<Op>,
    options: CompileOptions,
    l: Lowered,
    i: int,
    a: u32,
    b: u32,
)
    requires
        lowering_of(k, raw, options, Ok(l)),
        0 <= i < k.coalesced_groups.len(),
        k.coalesced_groups[i].base_vreg.0 <= a < k.coalesced_groups[i].base_vreg.0
            + k.coalesced_groups[i].count,
        k.coalesced_groups[i].base_vreg.0 <= b < k.coalesced_groups[i].base_vreg.0
            + k.coalesced_groups[i].count,
        l.alloc.vgpr_map@.contains_key(a),
        l.alloc.vgpr_map@.contains_key(b),
    ensures
        l.alloc.vgpr_map@[a] - l.alloc.vgpr_map@[b] == a - b,
{
    let g = k.coalesced_groups[i];
    assert(groups_kept(l.alloc, k.coalesced_groups));
    assert(group_kept(l.alloc, g));
    assert(seq![g][0] == g);
    assert(in_group(seq![g], a) && in_group(seq![g], b));
}

/// The local data share of a lowered kernel holds what the kernel uses, and what was spilled
/// behind it: a slot of four bytes for each thread and register.
pub proof fn spilled_registers_have_slots(
    k: KernelState,
    raw: Seq<Op>,
    options: CompileOptions,
    l: Lowered,
)
    requires
        lowering_of(k, raw, options, Ok(l)),
    ensures
        l.lds_size >= k.lds_size,
        !needs_spilling(k, lowered_ops(k, raw, options)) ==> l.lds_size == k.lds_size,
        needs_spilling(k, lowered_ops(k, raw, options)) ==> exists|n: nat|
            l.lds_size == k.lds_size + 4 * k.wg_size * slots_before(
                (#[trigger] spill_source(k, lowered_ops(k, raw, options)).plan(n)).groups,
                spill_source(k, lowered_ops(k, raw, options)).plan(n).groups.len() as int,
            ),
{
    let ops = lowered_ops(k, raw, options);
    if needs_spilling(k, ops) {
        let s = spill_source(k, ops);
        let n = s.count_from(1)->0;
        let p = s.plan(n);
        let total = slots_before(p.groups, p.groups.len() as int);
        assert(total * p.stride == 4 * k.wg_size * total) by (nonlinear_arith)
            requires
                p.stride == 4 * k.wg_size,
        ;
        assert(l.lds_size == k.lds_size + 4 * k.wg_size * total);
    }
}

/// The groups that operations name follow each other as all groups do.
pub proof fn lemma_live_ordered(allocs: Seq<VRegAlloc>, ops: Seq<Op>, next: nat)
    requires
        vregs_ordered(allocs, next),
    ensures
        vregs_ordered(live_allocs(allocs, ops), next),
    decreases allocs.len(),
{
    if allocs.len() > 0 {
        let last = allocs.last();
        let init = allocs.drop_last();
        assert(vregs_ordered(init, last.vreg.0 as nat)) by {
            assert forall|i: int| 0 <= i < init.len() implies 1 <= (#[trigger] init[i]).vreg.0
                && init[i].vreg.0 + init[i].count <= last.vreg.0 by {
                assert(init[i] == allocs[i]);
                assert(allocs[allocs.len() - 1] == last);
            }
            assert forall|i: int, j: int| 0 <= i < j < init.len() implies (
            #[trigger] init[i]).vreg.0 + init[i].count <= (#[trigger] init[j]).vreg.0 by {
                assert(init[i] == allocs[i] && init[j] == allocs[j]);
            }
        }
        lemma_live_ordered(init, ops, last.vreg.0 as nat);
        assert(allocs[allocs.len() - 1] == last);
    }
}

/// Copies follow the groups that a kernel handed out, and each other.
proof fn lemma_copies_ordered(live: Seq<VRegAlloc>, ops: Seq<Op>, next: nat, hi: int)
    requires
        vregs_ordered(live, next),
        1 <= next <= hi <= u32::MAX,
    ensures
        vregs_ordered(live + copy_allocs(ops, next as int, hi), hi as nat),
    decreases hi - next,
{
    let all = live + copy_allocs(ops, next as int, hi);
    if hi == next {
        assert(all =~= live);
    } else {
        lemma_copies_ordered(live, ops, next, hi - 1);
        let before = live + copy_allocs(ops, next as int, hi - 1);
        if names_vreg(ops, (hi - 1) as u32) {
            let last = VRegAlloc {
                vreg: VReg((hi - 1) as u32),
                count: 1,
                alignment: Alignment::Align1,
            };
            assert(all =~= before.push(last));
        }
        assert forall|i: int| 0 <= i < all.len() implies 1 <= (#[trigger] all[i]).vreg.0
            && all[i].vreg.0 + all[i].count <= hi by {
            if i < before.len() {
                assert(all[i] == before[i]);
            }
        }
        assert forall|i: int, j: int| 0 <= i < j < all.len() implies (#[trigger] all[i]).vreg.0
            + all[i].count <= (#[trigger] all[j]).vreg.0 by {
            assert(all[i] == before[i]);
            if j < before.len() {
                assert(all[j] == before[j]);
            }
        }
    }
}

/// Groups that follow each other have no register in common.
pub proof fn lemma_v_groups_valid(allocs: Seq<VRegAlloc>, next: nat)
    requires
        vregs_ordered(allocs, next),
        next <= u32::MAX,
    ensures
        groups_valid(v_groups(allocs)),
{
    let g = v_groups(allocs);
    assert forall|i: int| 0 <= i < g.len() implies (#[trigger] g[i]).valid() by {
        assert(allocs[i].vreg.0 + allocs[i].count <= next);
    }
    assert forall|i: int, j: int, id: u32|
        0 <= i < j < g.len() && #[trigger] g[i].has(id) implies !#[trigger] g[j].has(id) by {
        assert(allocs[i].vreg.0 + allocs[i].count <= allocs[j].vreg.0);
    }
}

proof fn lemma_s_groups_valid(allocs: Seq<SRegAlloc>, next: nat)
    requires
        sregs_ordered(allocs, next),
        next <= u32::MAX,
    ensures
        groups_valid(s_groups(allocs)),
{
    let g = s_groups(allocs);
    assert forall|i: int| 0 <= i < g.len() implies (#[trigger] g[i]).valid() by {
        assert(allocs[i].sreg.0 + allocs[i].count <= next);
    }
    assert forall|i: int, j: int, id: u32|
        0 <= i < j < g.len() && #[trigger] g[i].has(id) implies !#[trigger] g[j].has(id) by {
        assert(allocs[i].sreg.0 + allocs[i].count <= allocs[j].sreg.0);
    }
}

/// The vector registers that operations name.
fn named_vregs(ops: &Vec<Op>) -> (r: HashSet<u32>)
    ensures
        forall|id: u32| #[trigger] r@.contains(id) <==> names_vreg(ops@, id),
{
    let mut set: HashSet<u32> = HashSet::new();
    let mut i: usize = 0;
    while i < ops.len()
        invariant
            i <= ops.len(),
            forall|id: u32| #[trigger]
                set@.contains(id) <==> names_vreg(ops@.take(i as int), id),
        decreases ops.len() - i,
    {
        let refs: Vec<VReg> = ops[i].vreg_refs();
        let ghost before = set@;
        let mut k: usize = 0;
        while k < refs.len()
            invariant
                k <= refs.len(),
                forall|id: u32| #[trigger]
                    set@.contains(id) <==> before.contains(id) || refs@.take(k as int).contains(
                        VReg(id),
                    ),
            decreases refs.len() - k,
        {
            let v: VReg = refs[k];
            set.insert(v.0);
            k = k + 1;
            proof {
                assert(refs@.take(k as int) =~= refs@.take(k - 1).push(v));
                assert forall|id: u32| #[trigger] set@.contains(id) <==> before.contains(id)
                    || refs@.take(k as int).contains(VReg(id)) by {
                    if id == v.0 {
                        assert(refs@.take(k as int).last() == VReg(id));
                    }
                    if refs@.take(k - 1).contains(VReg(id)) {
                        let j = choose|j: int|
                            0 <= j < k - 1 && (#[trigger] refs@.take(k - 1)[j]) == VReg(id);
                        assert(refs@.take(k as int)[j] == VReg(id));
                    }
                }
            }
        }
        proof {
            assert(refs@.take(k as int) =~= refs@);
            let cur = ops@.take(i as int);
            let nxt = ops@.take(i + 1);
            assert forall|id: u32| #[trigger] set@.contains(id) <==> names_vreg(nxt, id) by {
                if names_vreg(cur, id) {
                    let j = choose|j: int|
                        0 <= j < cur.len() && #[trigger] op_vreg_refs(cur[j]).contains(VReg(id));
                    assert(op_vreg_refs(nxt[j]).contains(VReg(id)));
                }
                if refs@.contains(VReg(id)) {
                    assert(op_vreg_refs(nxt[i as int]).contains(VReg(id)));
                }
                if names_vreg(nxt, id) {
                    let j = choose|j: int|
                        0 <= j < nxt.len() && #[trigger] op_vreg_refs(nxt[j]).contains(VReg(id));
                    if j < i {
                        assert(op_vreg_refs(cur[j]).contains(VReg(id)));
                    }
                }
            }
        }
        i = i + 1;
    }
    assert(ops@.take(i as int) =~= ops@);
    set
}

/// The groups of which operations still name a register.
fn filter_allocs(allocs: &Vec<VRegAlloc>, ops: &Vec<Op>, next: u32) -> (r: Vec<VRegAlloc>)
    requires
        vregs_ordered(allocs@, next as nat),
    ensures
        r@ == live_allocs(allocs@, ops@),
{
    let named = named_vregs(ops);
    let mut out: Vec<VRegAlloc> = Vec::new();
    let mut i: usize = 0;
    while i < allocs.len()
        invariant
            i <= allocs.len(),
            vregs_ordered(allocs@, next as nat),
            forall|id: u32| #[trigger] named@.contains(id) <==> names_vreg(ops@, id),
            out@ == live_allocs(allocs@.take(i as int), ops@),
        decreases allocs.len() - i,
    {
        let a = allocs[i];
        assert(a.vreg.0 + a.count <= next) by {
            assert(allocs@[i as int].vreg.0 + allocs@[i as int].count <= next);
        }
        let mut live: bool = false;
        let mut k: u32 = 0;
        while k < a.count
            invariant
                k <= a.count,
                a.vreg.0 + a.count <= next,
                forall|id: u32| #[trigger] named@.contains(id) <==> names_vreg(ops@, id),
                live == exists|id: u32|
                    a.vreg.0 <= id < a.vreg.0 + k && #[trigger] names_vreg(ops@, id),
            decreases a.count - k,
        {
            if named.contains(&(a.vreg.0 + k)) {
                live = true;
            }
            k = k + 1;
        }
        if live {
            out.push(a);
        }
        i = i + 1;
        assert(allocs@.take(i as int).drop_last() =~= allocs@.take(i - 1));
    }
    assert(allocs@.take(i as int) =~= allocs@);
    out
}

/// Numbers that no operation names add nothing.
proof fn lemma_copies_gap(ops: Seq<Op>, next: int, lo: int, hi: int)
    requires
        0 <= next <= lo <= hi <= u32::MAX,
        forall|id: u32| lo <= id < hi ==> !#[trigger] names_vreg(ops, id),
    ensures
        copy_allocs(ops, next, hi) == copy_allocs(ops, next, lo),
    decreases hi - lo,
{
    if lo < hi {
        lemma_copies_gap(ops, next, lo, hi - 1);
        assert(!names_vreg(ops, (hi - 1) as u32));
    }
}

/// The least of the numbers from `lo` on, if there is one below the largest number of all.
fn least_from(refs: &Vec<u32>, lo: u32) -> (r: Option<u32>)
    ensures
        match r {
            Some(id) => refs@.contains(id) && lo <= id < u32::MAX && forall|x: u32|
                lo <= x < id ==> !#[trigger] refs@.contains(x),
            None => forall|x: u32| lo <= x < u32::MAX ==> !#[trigger] refs@.contains(x),
        },
{
    let mut best: u32 = u32::MAX;
    let mut k: usize = 0;
    while k < refs.len()
        invariant
            k <= refs.len(),
            best < u32::MAX ==> refs@.contains(best) && lo <= best,
            forall|j: int| 0 <= j < k && lo <= refs@[j] ==> best <= #[trigger] refs@[j],
        decreases refs.len() - k,
    {
        let id: u32 = refs[k];
        if lo <= id && id < best {
            best = id;
            assert(refs@[k as int] == best);
        }
        k = k + 1;
    }
    assert forall|x: u32| lo <= x < best implies !#[trigger] refs@.contains(x) by {
        if refs@.contains(x) {
            let j = choose|j: int| 0 <= j < refs@.len() && refs@[j] == x;
            assert(best <= refs@[j]);
        }
    }
    if best < u32::MAX {
        Some(best)
    } else {
        None
    }
}

/// Appends the copies of registers that passes made, and says where their numbers end.
fn push_copies(allocs: &mut Vec<VRegAlloc>, ops: &Vec<Op>, next: u32) -> (r: u32)
    requires
        1 <= next,
    ensures
        r == copies_end(ops@, next as nat),
        final(allocs)@ == old(allocs)@ + copy_allocs(ops@, next as int, r as int),
{
    let refs = vreg_refs_of(ops.as_slice());
    let max_v: u32 = max_vreg_in_ops(ops.as_slice());
    let end: u32 = if max_v < next - 1 {
        next
    } else if max_v < u32::MAX {
        max_v + 1
    } else {
        u32::MAX
    };
    let mut lo: u32 = next;
    proof {
        max_vreg_is_largest(ops@);
        assert forall|id: u32| id != 0 implies #[trigger] refs@.contains(id) == names_vreg(
            ops@,
            id,
        ) by {
            assert(refs@.to_set().contains(id) == crate::regalloc::named_vregs(ops@).contains(id));
        }
        assert forall|id: u32| #[trigger] names_vreg(ops@, id) implies id <= max_v by {
            let i = choose|i: int|
                0 <= i < ops@.len() && #[trigger] op_vreg_refs(ops@[i]).contains(VReg(id));
            let k = choose|k: int|
                0 <= k < op_vreg_refs(ops@[i]).len() && op_vreg_refs(ops@[i])[k] == VReg(id);
            assert(op_vreg_refs(ops@[i])[k].0 <= max_v);
        }
        assert(allocs@ =~= old(allocs)@ + copy_allocs(ops@, next as int, lo as int));
    }
    loop
        invariant
            1 <= next <= lo <= end,
            end == copies_end(ops@, next as nat),
            max_v == max_vreg(ops@),
            forall|id: u32| #[trigger] names_vreg(ops@, id) ==> id <= max_v,
            forall|id: u32|
                id != 0 ==> #[trigger] refs@.contains(id) == names_vreg(ops@, id),
            allocs@ == old(allocs)@ + copy_allocs(ops@, next as int, lo as int),
        decreases end - lo,
    {
        match least_from(&refs, lo) {
            None => {
                proof {
                    assert forall|id: u32| lo <= id < end implies !#[trigger] names_vreg(
                        ops@,
                        id,
                    ) by {
                        assert(!refs@.contains(id));
                    }
                    lemma_copies_gap(ops@, next as int, lo as int, end as int);
                }
                return end;
            },
            Some(id) => {
                proof {
                    assert(names_vreg(ops@, id));
                    assert forall|x: u32| lo <= x < id implies !#[trigger] names_vreg(
                        ops@,
                        x,
                    ) by {
                        assert(!refs@.contains(x));
                    }
                    lemma_copies_gap(ops@, next as int, lo as int, id as int);
                }
                allocs.push(VRegAlloc { vreg: VReg(id), count: 1, alignment: Alignment::Align1 });
                lo = id + 1;
                assert(allocs@ =~= old(allocs)@ + copy_allocs(ops@, next as int, lo as int));
            },
        }
    }
}

/// Copies operations.
fn clone_ops(ops: &Vec<Op>) -> (r: Vec<Op>)
    ensures
        r@ == ops@,
{
    let mut out: Vec<Op> = Vec::new();
    let mut i: usize = 0;
    while i < ops.len()
        invariant
            i <= ops.len(),
            out@ == ops@.take(i as int),
        decreases ops.len() - i,
    {
        out.push(ops[i].clone());
        i = i + 1;
        assert(ops@.take(i as int) =~= ops@.take(i - 1).push(ops@[i - 1]));
    }
    assert(ops@.take(i as int) =~= ops@);
    out
}

/// The matrix operations with an operand that does not start at a multiple of eight.
pub open spec fn misaligned(op: Op, ra: RegAlloc) -> bool {
    op matches OpOf::Wmma { dst, a, b, c, .. } && (ra.v(dst) % 8 != 0 || ra.v(a) % 8 != 0 || ra.v(b)
        % 8 != 0 || ra.v(c) % 8 != 0)
}

/// Where a matrix operation has an operand that does not start at a multiple of eight;
/// such an operation gives wrong results.
pub fn misaligned_wmma(ops: &Vec<Op>, ra: &RegAlloc) -> (r: Vec<usize>)
    requires
        all_encodable(ops@, *ra),
    ensures
        forall|i: int|
            0 <= i < ops@.len() ==> (misaligned(#[trigger] ops@[i], *ra) <==> exists|k: int|
                0 <= k < r@.len() && #[trigger] r@[k] == i),
        forall|k: int| 0 <= k < r@.len() ==> (#[trigger] r@[k]) < ops@.len(),
        forall|j: int, k: int| 0 <= j < k < r@.len() ==> #[trigger] r@[j] < #[trigger] r@[k],
{
    let mut out: Vec<usize> = Vec::new();
    let mut i: usize = 0;
    while i < ops.len()
        invariant
            i <= ops.len(),
            all_encodable(ops@, *ra),
            forall|x: int|
                0 <= x < i ==> (misaligned(#[trigger] ops@[x], *ra) <==> exists|k: int|
                    0 <= k < out@.len() && #[trigger] out@[k] == x),
            forall|k: int| 0 <= k < out@.len() ==> (#[trigger] out@[k]) < i,
            forall|j: int, k: int|
                0 <= j < k < out@.len() ==> #[trigger] out@[j] < #[trigger] out@[k],
        decreases ops.len() - i,
    {
        let ghost before = out@;
        match &ops[i] {
            OpOf::Wmma { dst, a, b, c, .. } => {
                proof {
                    assert(crate::asm_emitter::encodable(ops@[i as int], *ra));
                    assert(crate::ir::vregs(*dst, 8)[0] == *dst);
                    assert(crate::ir::vregs(*a, 8)[0] == *a);
                    assert(crate::ir::vregs(*b, 8)[0] == *b);
                    assert(crate::ir::vregs(*c, 8)[0] == *c);
                }
                if ra.phys_v(*dst) % 8 != 0 || ra.phys_v(*a) % 8 != 0 || ra.phys_v(*b) % 8 != 0
                    || ra.phys_v(*c) % 8 != 0 {
                    out.push(i);
                    assert(out@[before.len() as int] == i);
                }
            },
            _ => {},
        }
        proof {
            assert forall|x: int| 0 <= x < i + 1 implies (misaligned(#[trigger] ops@[x], *ra)
                <==> exists|k: int| 0 <= k < out@.len() && #[trigger] out@[k] == x) by {
                if x < i {
                    if misaligned(ops@[x], *ra) {
                        let k = choose|k: int| 0 <= k < before.len() && #[trigger] before[k] == x;
                        assert(out@[k] == x);
                    }
                    if exists|k: int| 0 <= k < out@.len() && #[trigger] out@[k] == x {
                        let k = choose|k: int| 0 <= k < out@.len() && #[trigger] out@[k] == x;
                        assert(before[k] == x);
                    }
                }
            }
        }
        i = i + 1;
    }
    out
}

impl LowerError {
    /// What is said about a kernel that was not lowered.
    pub fn to_text(self, name: &str) -> (r: String)
        ensures
            r@ == lower_error_text(name@, self),
    {
        match self {
            LowerError::Invalid(text) => text,
            LowerError::Registers(e) => {
                let mut r = "Kernel '".to_string();
                r.append(name);
                match e {
                    AllocError::OutOfVgprs => {
                        r.append("' needs more than 254 vector registers");
                    },
                    AllocError::OutOfSgprs => {
                        r.append("' needs more than 106 scalar registers");
                    },
                }
                r
            },
            LowerError::Scattered(id, _) => {
                let mut r = "Kernel '".to_string();
                r.append(name);
                r.append("' cannot keep coalesced group ");
                push_dec(&mut r, id as u64);
                r.append(" consecutive");
                r
            },
            LowerError::NotEncodable(_) => {
                let mut r = "Kernel '".to_string();
                r.append(name);
                r.append("' has an operation that cannot be encoded");
                r
            },
            LowerError::TooLong => {
                let mut r = "Kernel '".to_string();
                r.append(name);
                r.append("' has too many operations");
                r
            },
        }
    }
}

impl T0Kernel {
    /// Checks a kernel before it is lowered.
    pub fn validate(&self) -> (r: Result<(), String>)
        ensures
            match r {
                Ok(()) => validation_error(self@) is None,
                Err(text) => validation_error(self@) == Some(text@),
            },
    {
        let n: usize = self.ops.len();
        let has_end: bool = n > 0 && matches!(&self.ops[n - 1], OpOf::Endpgm);
        let mut n_saves: usize = 0;
        let mut n_restores: usize = 0;
        let mut n_flips: usize = 0;
        let mut i: usize = 0;
        let ghost ops = self@.ops;
        while i < self.ops.len()
            invariant
                i <= self.ops.len(),
                ops == op_texts(self.ops@),
                n_saves == saves(ops.take(i as int)),
                n_restores == restores(ops.take(i as int)),
                n_flips == flips(ops.take(i as int)),
                n_saves <= i,
                n_restores <= i,
                n_flips <= i,
            decreases self.ops.len() - i,
        {
            proof {
                let next = ops.take(i + 1);
                assert(next.drop_last() =~= ops.take(i as int));
                assert(next.last() == self.ops@[i as int]@);
            }
            match &self.ops[i] {
                OpOf::SaveExec { .. } => {
                    n_saves = n_saves + 1;
                },
                OpOf::RestoreExec { .. } => {
                    n_restores = n_restores + 1;
                },
                OpOf::XorExec { .. } => {
                    n_flips = n_flips + 1;
                },
                _ => {},
            }
            i = i + 1;
        }
        assert(ops.take(i as int) =~= ops);
        assert(has_end == has_endpgm(ops)) by {
            if n > 0 {
                assert(ops.last() == self.ops@[n - 1]@);
            }
        }
        let mut head = "[T0 validate] Kernel '".to_string();
        head.append(self.name.as_str());
        if !has_end {
            head.append("' missing s_endpgm — GPU will hang!");
            return Err(head);
        }
        if n_saves != n_restores {
            head.append("' has ");
            push_dec(&mut head, n_saves as u64);
            head.append(" SaveExec but ");
            push_dec(&mut head, n_restores as u64);
            head.append(" RestoreExec — EXEC mask will be corrupted!");
            return Err(head);
        }
        if n_flips > n_saves {
            head.append("' has ");
            push_dec(&mut head, n_flips as u64);
            head.append(" XorExec but only ");
            push_dec(&mut head, n_saves as u64);
            head.append(" SaveExec — else-branch without matching if-start!");
            return Err(head);
        }
        if self.kernarg_size % 4 != 0 {
            head.append("' kernarg_size=");
            push_dec(&mut head, self.kernarg_size as u64);
            head.append(" is not 4-byte aligned");
            return Err(head);
        }
        Ok(())
    }

    /// Checks, optimizes and places a kernel.
    pub fn lower(&self, options: &CompileOptions) -> (r: Result<Lowered, LowerError>)
        requires
            self@.wf(),
        ensures
            lowering_of(self@, self.raw_ops(), *options, r),
    {
        match self.validate() {
            Err(text) => {
                return Err(LowerError::Invalid(text));
            },
            Ok(()) => {},
        }
        let raw = clone_ops(&self.ops);
        let ops: Vec<Op> = if self.skip_optimize {
            raw
        } else {
            let level: u32 = match self.opt_level {
                Some(l) => l,
                None => options.opt_level,
            };
            let (optimized_ops, _stats) = optimize(
                raw,
                self.coalesced_groups.as_slice(),
                &OptConfig {
                    level,
                    passes: Passes {
                        cse: options.passes.cse && !self.skip_cse,
                        ..options.passes
                    },
                },
            );
            optimized_ops
        };
        assert(ops@ == lowered_ops(self@, self.raw_ops(), *options));
        if ops.len() > MAX_OPS {
            return Err(LowerError::TooLong);
        }
        self.lower_ops(ops)
    }

    /// Places the registers of a kernel whose operations after all passes are `ops`.
    fn lower_ops(&self, ops: Vec<Op>) -> (r: Result<Lowered, LowerError>)
        requires
            self@.wf(),
            validation_error(self@) is None,
            ops@.len() <= MAX_OPS,
        ensures
            lowering_from(self@, ops@, r),
    {
        let mut live = filter_allocs(&self.vreg_allocs, &ops, self.next_vreg);
        let ghost declared = live@;
        let end: u32 = if self.skip_optimize {
            self.next_vreg
        } else {
            push_copies(&mut live, &ops, self.next_vreg)
        };
        proof {
            assert(live@ == placed_allocs(self@, ops@) && end == allocs_end(self@, ops@));
            lemma_live_ordered(self.vreg_allocs@, ops@, self.next_vreg as nat);
            if !self.skip_optimize {
                lemma_copies_ordered(declared, ops@, self.next_vreg as nat, end as int);
            }
            lemma_v_groups_valid(live@, end as nat);
            lemma_s_groups_valid(self.sreg_allocs@, self.next_sreg as nat);
        }
        let placed = if self.use_ssa_regalloc {
            allocate_sharing(&live, &self.sreg_allocs, ops.as_slice())
        } else {
            allocate(&live, &self.sreg_allocs, ops.as_slice())
        };
        match placed {
            Err(e) => {
                match e {
                    AllocError::OutOfVgprs => {
                        if self.use_ssa_regalloc {
                            return self.lower_spilled(&ops, &live, end);
                        }
                    },
                    AllocError::OutOfSgprs => {},
                }
                Err(LowerError::Registers(e))
            },
            Ok(ra) => {
                assert(registers_placed(self@, ops@, ra));
                if !check_encodable(&ops, &ra) {
                    return Err(LowerError::NotEncodable(ra));
                }
                match find_scattered(&ra, self.coalesced_groups.as_slice()) {
                    Some(i) => {
                        let id: u32 = self.coalesced_groups[i].id;
                        assert(self@.coalesced_groups[i as int].id == id);
                        Err(LowerError::Scattered(id, ra))
                    },
                    None => Ok(Lowered { ops, alloc: ra, lds_size: self.lds_size }),
                }
            },
        }
    }

    /// Lowers a kernel whose vector registers do not suffice.
    fn lower_spilled(&self, ops: &Vec<Op>, live: &Vec<VRegAlloc>, end: u32) -> (r: Result<
        Lowered,
        LowerError,
    >)
        requires
            self@.wf(),
            validation_error(self@) is None,
            ops@.len() <= MAX_OPS,
            live@ == placed_allocs(self@, ops@),
            end == allocs_end(self@, ops@),
            1 <= end,
            vregs_ordered(live@, end as nat),
            groups_valid(s_groups(self@.sreg_allocs)),
            needs_spilling(self@, ops@),
        ensures
            lowering_from(self@, ops@, r),
    {
        let ghost s = spill_source(self@, ops@);
        match spill(
            ops,
            live,
            &self.sreg_allocs,
            self.coalesced_groups.as_slice(),
            end,
            self.lds_size,
            self.wg_size,
        ) {
            None => Err(LowerError::Registers(AllocError::OutOfVgprs)),
            Some(l) => {
                proof {
                    lemma_count_fits(s, 1);
                }
                Ok(Lowered { ops: l.ops, alloc: l.alloc, lds_size: self.lds_size + l.bytes })
            },
        }
    }

    /// The assembly of a lowered kernel.
    pub fn write_assembly(&self, lowered: &Lowered, target: Target, delay_alu: bool) -> (r: String)
        requires
            all_encodable(lowered.ops@, lowered.alloc),
            lowered.ops@.len() <= MAX_OPS,
            self@.kernarg_size <= u32::MAX,
        ensures
            r@ == assembly_of(self@, *lowered, target, delay_alu),
    {
        let mut emitter = AsmEmitter::new();
        emitter.set_delay_alu(delay_alu);
        emitter.emit_kernel(
            self.name.as_str(),
            lowered.ops.as_slice(),
            &lowered.alloc,
            target,
            self.kernarg_size,
            lowered.lds_size,
            self.wgp_mode,
        );
        emitter.finish()
    }

    /// The assembly of this kernel and the size of its local data share, or what is wrong
    /// with it.
    pub fn to_assembly_with_options(&self, target: Target, options: &CompileOptions) -> (r: Result<
        (String, u32),
        String,
    >)
        requires
            self@.wf(),
        ensures
            assembly_result(self@, self.raw_ops(), target, *options, r),
    {
        let lowering = self.lower(options);
        assert(lowering_of(self@, self.raw_ops(), *options, lowering));
        match lowering {
            Ok(lowered) => {
                let text = self.write_assembly(&lowered, target, options.delay_alu);
                Ok((text, lowered.lds_size))
            },
            Err(e) => Err(e.to_text(self.name.as_str())),
        }
    }

    /// The assembly of this kernel and the size of its local data share, with what was spilled
    /// to it.
    pub fn to_assembly_with_info(&self, target: Target) -> (r: Result<(String, u32), String>)
        requires
            self@.wf(),
        ensures
            assembly_result(self@, self.raw_ops(), target, default_options(), r),
    {
        let options = CompileOptions::default();
        self.to_assembly_with_options(target, &options)
    }

    /// The assembly of this kernel.
    pub fn to_assembly(&self, target: Target) -> (r: Result<String, String>)
        requires
            self@.wf(),
        ensures
            match r {
                Ok(text) => assembly_result(
                    self@,
                    self.raw_ops(),
                    target,
                    default_options(),
                    Ok((text, final_lds_size(self@, self.raw_ops(), default_options()))),
                ),
                Err(e) => assembly_result(
                    self@,
                    self.raw_ops(),
                    target,
                    default_options(),
                    Err(e),
                ),
            },
    {
        match self.to_assembly_with_info(target) {
            Ok((text, _lds)) => Ok(text),
            Err(e) => Err(e),
        }
    }
}

/// Options as they are when nothing is set from outside.
pub open spec fn default_options() -> CompileOptions {
    CompileOptions { opt_level: 4, passes: Passes::all(), delay_alu: true }
}

/// The assembly of a lowered kernel.
pub open spec fn assembly_of(k: KernelState, l: Lowered, target: Target, delay_alu: bool) -> Seq<
    char,
> {
    kernel_state(
        EmitState { delay_alu, ..fresh_state() },
        k.name,
        l.ops@,
        l.alloc,
        target,
        k.kernarg_size as u32,
        l.lds_size,
        k.wgp_mode,
    ).text
}

/// What turning a kernel into assembly promises.
pub open spec fn assembly_result(
    k: KernelState,
    raw: Seq<Op>,
    target: Target,
    options: CompileOptions,
    r: Result<(String, u32), String>,
) -> bool {
    match r {
        Ok((text, lds)) => exists|l: Lowered| #[trigger]
            lowering_of(k, raw, options, Ok(l)) && text@ == assembly_of(
                k,
                l,
                target,
                options.delay_alu,
            ) && lds == l.lds_size && lds == final_lds_size(k, raw, options),
        Err(text) => exists|e: LowerError| #[trigger]
            lowering_of(k, raw, options, Err(e)) && text@ == lower_error_text(k.name, e),
    }
}

} // verus!
