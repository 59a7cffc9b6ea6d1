//! Kernels whose operations can be written down wherever their registers are placed.
//!
//! An operation that names consecutive registers by the first of them needs consecutive
//! places. Groups have such places, so it is enough that those registers were handed out
//! together.
use vstd::prelude::*;

use crate::asm_emitter::{KERNARG_BASE_MIN, all_encodable, encodable, srange_placed, vrange_placed};
use crate::compile::{
    CoalescedGroup, CompileOptions, KernelState, LowerError, Lowered, MAX_OPS, arg_load_ops,
    is_live, lemma_live_ordered, lemma_v_groups_valid, live_allocs, lowering_of, op_texts,
    placed_allocs, registers_placed, sregs_ordered, validation_error, vregs_ordered,
};
use crate::ir::{
    KernArgText, Op, OpOf, OpText, SOperand, SReg, SRegAlloc, VReg, VRegAlloc, op_sreg_defs,
    op_sreg_uses, op_vreg_defs, op_vreg_refs, op_vreg_uses, sregs, vregs,
};
use crate::lives::kernels_that_fit_apart_fit_shared;
use crate::regalloc::{
    AllocError, FIRST_RESERVED_SREG, FIRST_SGPR, FIRST_VGPR, MAX_SGPRS, MAX_VGPRS, RegAlloc,
    align_up, groups_end, in_groups, leftover, named_sregs, named_vregs, names_sreg, names_vreg,
    s_groups, space_needed, v_groups,
};

verus! {

// ── Groups ──
/// Whether a group holds `n` vector registers from `id` on.
pub open spec fn v_covers(a: VRegAlloc, id: u32, n: nat) -> bool {
    a.vreg.0 <= id && id + n <= a.vreg.0 + a.count
}

/// Whether a group holds `n` scalar registers from `id` on.
pub open spec fn s_covers(a: SRegAlloc, id: u32, n: nat) -> bool {
    a.sreg.0 <= id && id + n <= a.sreg.0 + a.count
}

/// Whether `n` vector registers from `v` on were handed out together.
#[verifier::opaque]
pub open spec fn v_grouped(allocs: Seq<VRegAlloc>, v: VReg, n: nat) -> bool {
    exists|i: int| 0 <= i < allocs.len() && v_covers(#[trigger] allocs[i], v.0, n)
}

/// Whether `n` scalar registers from `s` on were handed out together.
#[verifier::opaque]
pub open spec fn s_grouped(allocs: Seq<SRegAlloc>, s: SReg, n: nat) -> bool {
    exists|i: int| 0 <= i < allocs.len() && s_covers(#[trigger] allocs[i], s.0, n)
}

/// Whether more groups were handed out behind given ones.
#[verifier::opaque]
pub open spec fn extends<T>(a: Seq<T>, b: Seq<T>) -> bool {
    a.len() <= b.len() && forall|i: int| 0 <= i < a.len() ==> #[trigger] b[i] == a[i]
}

/// Nothing more is no change.
pub broadcast proof fn lemma_extends_self<T>(a: Seq<T>)
    ensures
        #[trigger] extends(a, a),
{
    reveal(extends);
}

/// One more group keeps those in front of it.
pub broadcast proof fn lemma_extends_push<T>(a: Seq<T>, b: Seq<T>, x: T)
    requires
        extends(a, b),
    ensures
        #[trigger] extends(a, b.push(x)),
{
    reveal(extends);
}

/// What is behind something that is behind something is behind it.
pub broadcast proof fn lemma_extends_trans<T>(a: Seq<T>, b: Seq<T>, c: Seq<T>)
    requires
        #[trigger] extends(a, b),
        #[trigger] extends(b, c),
    ensures
        extends(a, c),
{
    reveal(extends);
    assert forall|i: int| 0 <= i < a.len() implies #[trigger] c[i] == a[i] by {
        assert(b[i] == a[i]);
    }
}

/// Registers of the group that was handed out last belong together.
pub broadcast proof fn lemma_v_grouped_last(allocs: Seq<VRegAlloc>, a: VRegAlloc, v: VReg, n: nat)
    requires
        v_covers(a, v.0, n),
    ensures
        #[trigger] v_grouped(allocs.push(a), v, n),
{
    reveal(v_grouped);
    assert(v_covers(allocs.push(a)[allocs.len() as int], v.0, n));
}

/// Registers that belong together keep doing so.
pub broadcast proof fn lemma_v_grouped_push(allocs: Seq<VRegAlloc>, a: VRegAlloc, v: VReg, n: nat)
    requires
        v_grouped(allocs, v, n),
    ensures
        #[trigger] v_grouped(allocs.push(a), v, n),
{
    reveal(v_grouped);
    let i = choose|i: int| 0 <= i < allocs.len() && v_covers(#[trigger] allocs[i], v.0, n);
    assert(v_covers(allocs.push(a)[i], v.0, n));
}

/// Registers that belong together keep doing so when more are handed out.
pub proof fn lemma_v_grouped_extends(
    a: Seq<VRegAlloc>,
    b: Seq<VRegAlloc>,
    v: VReg,
    n: nat,
)
    requires
        extends(a, b),
        v_grouped(a, v, n),
    ensures
        v_grouped(b, v, n),
{
    reveal(v_grouped);
    reveal(extends);
    let i = choose|i: int| 0 <= i < a.len() && v_covers(#[trigger] a[i], v.0, n);
    assert(v_covers(b[i], v.0, n));
}

/// Some of the registers of a group belong together.
pub proof fn lemma_v_grouped_part(a: Seq<VRegAlloc>, v: VReg, n: nat, w: VReg, m: nat)
    requires
        v_grouped(a, v, n),
        v.0 <= w.0,
        w.0 + m <= v.0 + n,
    ensures
        v_grouped(a, w, m),
{
    reveal(v_grouped);
    let i = choose|i: int| 0 <= i < a.len() && v_covers(#[trigger] a[i], v.0, n);
    assert(v_covers(a[i], w.0, m));
}

/// Scalar registers of the group that was handed out last belong together.
pub broadcast proof fn lemma_s_grouped_last(allocs: Seq<SRegAlloc>, a: SRegAlloc, s: SReg, n: nat)
    requires
        s_covers(a, s.0, n),
    ensures
        #[trigger] s_grouped(allocs.push(a), s, n),
{
    reveal(s_grouped);
    assert(s_covers(allocs.push(a)[allocs.len() as int], s.0, n));
}

/// Scalar registers that belong together keep doing so.
pub broadcast proof fn lemma_s_grouped_push(allocs: Seq<SRegAlloc>, a: SRegAlloc, s: SReg, n: nat)
    requires
        s_grouped(allocs, s, n),
    ensures
        #[trigger] s_grouped(allocs.push(a), s, n),
{
    reveal(s_grouped);
    let i = choose|i: int| 0 <= i < allocs.len() && s_covers(#[trigger] allocs[i], s.0, n);
    assert(s_covers(allocs.push(a)[i], s.0, n));
}

/// Whether group `i` of those that follow each other from `base` on belongs together.
pub open spec fn run_at(va: Seq<VRegAlloc>, base: VReg, size: u32, i: u32) -> bool {
    v_grouped(va, VReg((base.0 + size * i) as u32), size as nat)
}

/// Whether `n` groups of registers follow each other from `base` on.
#[verifier::opaque]
pub open spec fn runs(va: Seq<VRegAlloc>, base: VReg, size: u32, n: u32) -> bool {
    forall|i: u32| i < n ==> #[trigger] run_at(va, base, size, i)
}

/// One of several groups.
pub proof fn lemma_run_at(va: Seq<VRegAlloc>, base: VReg, size: u32, n: u32, i: u32)
    requires
        runs(va, base, size, n),
        i < n,
    ensures
        run_at(va, base, size, i),
{
    reveal(runs);
}

/// Groups stay when more are handed out.
pub proof fn lemma_runs_extend(
    a: Seq<VRegAlloc>,
    b: Seq<VRegAlloc>,
    base: VReg,
    size: u32,
    n: u32,
)
    requires
        extends(a, b),
        runs(a, base, size, n),
    ensures
        runs(b, base, size, n),
{
    reveal(runs);
    assert forall|i: u32| i < n implies #[trigger] run_at(b, base, size, i) by {
        assert(run_at(a, base, size, i));
        lemma_v_grouped_extends(a, b, VReg((base.0 + size * i) as u32), size as nat);
    }
}

/// One more group behind several.
pub proof fn lemma_runs_push(va: Seq<VRegAlloc>, a: VRegAlloc, base: VReg, size: u32, n: u32)
    requires
        n > 0 ==> runs(va, base, size, n),
        a.vreg.0 == base.0 + size * n,
        a.count == size,
        n < u32::MAX,
    ensures
        runs(va.push(a), base, size, (n + 1) as u32),
{
    broadcast use lemma_v_grouped_last, lemma_v_grouped_push;

    reveal(runs);
    let more = va.push(a);
    assert forall|i: u32| i < n + 1 implies #[trigger] run_at(more, base, size, i) by {
        if i < n {
            assert(run_at(va, base, size, i));
        } else {
            assert(v_covers(a, a.vreg.0, size as nat));
        }
    }
}

/// No groups at all.
pub proof fn lemma_runs_none(va: Seq<VRegAlloc>, base: VReg, size: u32)
    ensures
        runs(va, base, size, 0),
{
    reveal(runs);
}

// ── Operations ──
/// How many scalar registers a settled kernel has at most.
pub const SETTLED_SREGS: u32 = 42;

/// Whether a scalar register is one of a settled kernel.
pub open spec fn s_plain(s: SReg) -> bool {
    s.0 < SETTLED_SREGS
}

/// Whether a scalar operand is one of a settled kernel.
pub open spec fn o_plain(o: SOperand) -> bool {
    o matches SOperand::SReg(s) ==> s_plain(s)
}

/// Whether registers that an operation names by the first of them were handed out together,
/// and scalar registers are those of a settled kernel.
pub open spec fn op_settled(
    op: OpText,
    va: Seq<VRegAlloc>,
    sa: Seq<SRegAlloc>,
) -> bool {
    match op {
        OpOf::GlobalLoad { dst, addr, width, .. } => {
            &&& v_grouped(va, addr, 2)
            &&& width.regs() == 1 || v_grouped(va, dst, width.regs())
        },
        OpOf::GlobalStore { addr, src, width, .. } => {
            &&& v_grouped(va, addr, 2)
            &&& width.regs() == 1 || v_grouped(va, src, width.regs())
        },
        OpOf::DsLoadB128 { dst, .. } => v_grouped(va, dst, 4),
        OpOf::DsStoreB128 { src, .. } => v_grouped(va, src, 4),
        OpOf::Wmma { dst, a, b, c, .. } => {
            &&& v_grouped(va, dst, 8)
            &&& v_grouped(va, a, 8)
            &&& v_grouped(va, b, 8)
            &&& v_grouped(va, c, 8)
        },
        OpOf::ScalarLoad { dst, base, width, .. } => {
            &&& width !is B16
            &&& s_plain(dst)
            &&& base.0 >= KERNARG_BASE_MIN
            &&& width.regs() == 1 || s_grouped(sa, dst, width.regs())
        },
        OpOf::VAddU32 { .. } => true,
        OpOf::VAndB32 { .. } => true,
        OpOf::VAddF32 { .. } => true,
        OpOf::VMaxF32 { .. } => true,
        OpOf::VMov { .. } => true,
        OpOf::VLshlrevB32 { .. } => true,
        OpOf::VLshrrevB32 { .. } => true,
        OpOf::VAddCo { .. } => true,
        OpOf::VAddCoCi { .. } => true,
        OpOf::VMulLoU32 { .. } => true,
        OpOf::VMovFromSgpr { src, .. } => s_plain(src),
        OpOf::VReadfirstlane { dst, .. } => s_plain(dst),
        OpOf::SAddU32 { dst, src0, src1 } => s_plain(dst) && s_plain(src0) && o_plain(src1),
        OpOf::SAndB32 { dst, src0, src1 } => s_plain(dst) && s_plain(src0) && o_plain(src1),
        OpOf::SMulI32 { dst, src0, src1 } => s_plain(dst) && s_plain(src0) && s_plain(src1),
        OpOf::SLshlB32 { dst, src, .. } => s_plain(dst) && s_plain(src),
        OpOf::SLshrB32 { dst, src, .. } => s_plain(dst) && s_plain(src),
        OpOf::SMov { dst, src } => s_plain(dst) && o_plain(src),
        OpOf::SCmpLtU32 { src0, src1 } => s_plain(src0) && s_plain(src1),
        OpOf::SCmpGeU32 { src0, src1 } => s_plain(src0) && s_plain(src1),
        OpOf::SCmpEqU32 { src0, src1 } => s_plain(src0) && o_plain(src1),
        OpOf::CaptureTgid { dst, .. } => s_plain(dst),
        OpOf::Label(_) => true,
        OpOf::Branch(_) => true,
        OpOf::BranchScc1(_) => true,
        OpOf::SBarrier => true,
        OpOf::WaitVmcnt(_) => true,
        OpOf::WaitLgkmcnt(_) => true,
        OpOf::WaitVscnt(_) => true,
        OpOf::Endpgm => true,
        _ => false,
    }
}

/// Whether that holds of all operations.
#[verifier::opaque]
pub open spec fn settled(ops: Seq<OpText>, va: Seq<VRegAlloc>, sa: Seq<SRegAlloc>) -> bool {
    forall|i: int| 0 <= i < ops.len() ==> op_settled(#[trigger] ops[i], va, sa)
}

/// Whether groups of scalar registers are at least twice as long as their alignment skips.
#[verifier::opaque]
pub open spec fn tight(sa: Seq<SRegAlloc>) -> bool {
    forall|i: int|
        0 <= i < sa.len() ==> 2 * ((#[trigger] sa[i]).alignment.factor() - 1) <= sa[i].count
}

/// One more such group keeps that.
pub broadcast proof fn lemma_tight_push(sa: Seq<SRegAlloc>, a: SRegAlloc)
    requires
        tight(sa),
        2 * (a.alignment.factor() - 1) <= a.count,
    ensures
        #[trigger] tight(sa.push(a)),
{
    reveal(tight);
}

/// Whether that holds of a kernel, and no other registers have to stay consecutive.
pub open spec fn kernel_settled(s: KernelState) -> bool {
    settled(s.ops, s.vreg_allocs, s.sreg_allocs) && tight(s.sreg_allocs) && s.coalesced_groups
        == Seq::<CoalescedGroup>::empty()
}

/// One more operation keeps that if it holds of it.
pub broadcast proof fn lemma_settled_push(
    ops: Seq<OpText>,
    op: OpText,
    va: Seq<VRegAlloc>,
    sa: Seq<SRegAlloc>,
)
    requires
        settled(ops, va, sa),
        op_settled(op, va, sa),
    ensures
        #[trigger] settled(ops.push(op), va, sa),
{
    reveal(settled);
}

/// One more group of vector registers keeps that.
pub broadcast proof fn lemma_settled_vregs(
    ops: Seq<OpText>,
    va: Seq<VRegAlloc>,
    a: VRegAlloc,
    sa: Seq<SRegAlloc>,
)
    requires
        settled(ops, va, sa),
    ensures
        #[trigger] settled(ops, va.push(a), sa),
{
    broadcast use lemma_v_grouped_push;

    reveal(settled);
    assert forall|i: int| 0 <= i < ops.len() implies op_settled(
        #[trigger] ops[i],
        va.push(a),
        sa,
    ) by {
        assert(op_settled(ops[i], va, sa));
    }
}

/// One more group of scalar registers keeps that.
pub broadcast proof fn lemma_settled_sregs(
    ops: Seq<OpText>,
    va: Seq<VRegAlloc>,
    sa: Seq<SRegAlloc>,
    a: SRegAlloc,
)
    requires
        settled(ops, va, sa),
    ensures
        #[trigger] settled(ops, va, sa.push(a)),
{
    reveal(settled);
    reveal(s_grouped);
    assert forall|i: int| 0 <= i < ops.len() implies op_settled(
        #[trigger] ops[i],
        va,
        sa.push(a),
    ) by {
        assert(op_settled(ops[i], va, sa));
        match ops[i] {
            OpOf::ScalarLoad { dst, width, .. } => {
                if width.regs() != 1 {
                    let j = choose|j: int|
                        0 <= j < sa.len() && s_covers(#[trigger] sa[j], dst.0, width.regs());
                    assert(s_covers(sa.push(a)[j], dst.0, width.regs()));
                }
            },
            _ => {},
        }
    }
}

/// Whether the registers of an argument were handed out together.
pub open spec fn arg_settled(a: KernArgText, sa: Seq<SRegAlloc>) -> bool {
    s_plain(a.sreg) && (a.kind is Ptr ==> s_grouped(sa, a.sreg, 2))
}

/// Loads of arguments keep that.
pub proof fn lemma_settled_loads(
    ops: Seq<OpText>,
    va: Seq<VRegAlloc>,
    sa: Seq<SRegAlloc>,
    args: Seq<KernArgText>,
)
    requires
        settled(ops, va, sa),
        forall|i: int| 0 <= i < args.len() ==> arg_settled(#[trigger] args[i], sa),
    ensures
        settled(ops + arg_load_ops(args), va, sa),
{
    reveal(settled);
    let all = ops + arg_load_ops(args);
    assert forall|i: int| 0 <= i < all.len() implies op_settled(#[trigger] all[i], va, sa) by {
        if i >= ops.len() {
            assert(arg_settled(args[i - ops.len()], sa));
        }
    }
}

// ── Places ──
/// A group that operations name is among the live ones.
proof fn lemma_live_contains(allocs: Seq<VRegAlloc>, ops: Seq<Op>, i: int)
    requires
        0 <= i < allocs.len(),
        is_live(allocs[i], ops),
    ensures
        live_allocs(allocs, ops).contains(allocs[i]),
    decreases allocs.len(),
{
    let live = live_allocs(allocs, ops);
    if i == allocs.len() - 1 {
        assert(live.last() == allocs[i]);
    } else {
        lemma_live_contains(allocs.drop_last(), ops, i);
        let rest = live_allocs(allocs.drop_last(), ops);
        let j = choose|j: int| 0 <= j < rest.len() && rest[j] == allocs.drop_last()[i];
        assert(live[j] == allocs[i]);
    }
}

/// Vector registers that were handed out together have consecutive places.
proof fn lemma_v_range(k: KernelState, ops: Seq<Op>, ra: RegAlloc, v: VReg, n: nat)
    requires
        k.wf(),
        registers_placed(k, ops, ra),
        v_grouped(k.vreg_allocs, v, n),
        n > 0,
        names_vreg(ops, v.0),
    ensures
        vrange_placed(v, n, ra),
{
    reveal(v_grouped);
    let allocs = k.vreg_allocs;
    let i = choose|i: int| 0 <= i < allocs.len() && v_covers(#[trigger] allocs[i], v.0, n);
    assert(vregs_ordered(allocs, k.next_vreg));
    assert(1 <= allocs[i].vreg.0 && allocs[i].vreg.0 + allocs[i].count <= k.next_vreg);
    assert(is_live(allocs[i], ops));
    lemma_live_contains(allocs, ops, i);
    let live = live_allocs(allocs, ops);
    let j = choose|j: int| 0 <= j < live.len() && live[j] == allocs[i];
    let placed = placed_allocs(k, ops);
    assert(placed[j] == live[j]);
    let groups = v_groups(placed);
    assert forall|m: int| 0 <= m < n implies ra.has_v(#[trigger] vregs(v, n)[m]) && ra.v(
        vregs(v, n)[m],
    ) == ra.v(v) + m by {
        let id = (v.0 + m) as u32;
        assert(vregs(v, n)[m] == VReg(id));
        assert(groups[j].has(id));
        assert(groups[j].has(v.0));
        assert(in_groups(groups, id));
    }
}

/// Scalar registers that were handed out together have consecutive places.
proof fn lemma_s_range(k: KernelState, ops: Seq<Op>, ra: RegAlloc, s: SReg, n: nat)
    requires
        k.wf(),
        registers_placed(k, ops, ra),
        s_grouped(k.sreg_allocs, s, n),
        k.next_sreg < FIRST_RESERVED_SREG,
        n > 0,
    ensures
        srange_placed(s, n, ra),
{
    reveal(s_grouped);
    let allocs = k.sreg_allocs;
    let i = choose|i: int| 0 <= i < allocs.len() && s_covers(#[trigger] allocs[i], s.0, n);
    assert(sregs_ordered(allocs, k.next_sreg));
    assert(allocs[i].sreg.0 + allocs[i].count <= k.next_sreg);
    let groups = s_groups(allocs);
    assert forall|m: int| 0 <= m < n implies ra.has_s(#[trigger] sregs(s, n)[m]) && ra.s(
        sregs(s, n)[m],
    ) == ra.s(s) + m by {
        let id = (s.0 + m) as u32;
        assert(sregs(s, n)[m] == SReg(id));
        assert(groups[i].has(id));
        assert(groups[i].has(s.0));
        assert(in_groups(groups, id));
    }
}

/// Every register that an operation names has a place.
proof fn lemma_named_placed(k: KernelState, ops: Seq<Op>, i: int, ra: RegAlloc)
    requires
        registers_placed(k, ops, ra),
        0 <= i < ops.len(),
    ensures
        forall|v: VReg| op_vreg_refs(ops[i]).contains(v) ==> #[trigger] ra.has_v(v),
        forall|v: VReg| op_vreg_refs(ops[i]).contains(v) ==> #[trigger] names_vreg(ops, v.0),
        forall|s: SReg|
            (op_sreg_uses(ops[i]) + op_sreg_defs(ops[i])).contains(s) && s_plain(s)
                ==> #[trigger] ra.has_s(s),
{
    assert forall|v: VReg| op_vreg_refs(ops[i]).contains(v) implies #[trigger] ra.has_v(v) by {
        assert(VReg(v.0) == v);
        assert(names_vreg(ops, v.0));
        if v.0 != 0 {
            assert(named_vregs(ops).contains(v.0));
        }
    }
    assert forall|v: VReg| op_vreg_refs(ops[i]).contains(v) implies #[trigger] names_vreg(
        ops,
        v.0,
    ) by {
        assert(VReg(v.0) == v);
    }
    assert forall|s: SReg|
        (op_sreg_uses(ops[i]) + op_sreg_defs(ops[i])).contains(s) && s_plain(s) implies
        #[trigger] ra.has_s(s) by {
        assert(SReg(s.0) == s);
        assert(names_sreg(ops, s.0));
        assert(named_sregs(ops).contains(s.0));
    }
}

/// A single register is a range of one.
proof fn lemma_single(ra: RegAlloc, v: VReg)
    requires
        ra.has_v(v),
    ensures
        vrange_placed(v, 1, ra),
{
    assert(vregs(v, 1)[0] == v);
}

/// A settled operation can be written down.
#[verifier::spinoff_prover]
#[verifier::rlimit(60)]
proof fn lemma_op_encodable(k: KernelState, ops: Seq<Op>, i: int, ra: RegAlloc)
    requires
        k.wf(),
        k.next_sreg < FIRST_RESERVED_SREG,
        registers_placed(k, ops, ra),
        0 <= i < ops.len(),
        op_settled(ops[i]@, k.vreg_allocs, k.sreg_allocs),
    ensures
        encodable(ops[i], ra),
{
    broadcast use vstd::seq_lib::group_seq_properties;

    let op = ops[i];
    let uses = op_vreg_uses(op);
    let defs = op_vreg_defs(op);
    lemma_named_placed(k, ops, i, ra);
    match op {
        OpOf::GlobalLoad { dst, addr, width, .. } => {
            assert(uses[0] == addr);
            assert(defs[0] == dst);
            assert(op_vreg_refs(op).contains(addr) && op_vreg_refs(op).contains(dst));
            lemma_v_range(k, ops, ra, addr, 2);
            if width.regs() == 1 {
                lemma_single(ra, dst);
            } else {
                lemma_v_range(k, ops, ra, dst, width.regs());
            }
        },
        OpOf::GlobalStore { addr, src, width, .. } => {
            assert(uses[0] == addr);
            assert(uses[2] == src);
            assert(op_vreg_refs(op).contains(addr) && op_vreg_refs(op).contains(src));
            lemma_v_range(k, ops, ra, addr, 2);
            if width.regs() == 1 {
                lemma_single(ra, src);
            } else {
                lemma_v_range(k, ops, ra, src, width.regs());
            }
        },
        OpOf::DsLoadB128 { dst, .. } => {
            assert(defs[0] == dst);
            assert(op_vreg_refs(op).contains(dst));
            lemma_v_range(k, ops, ra, dst, 4);
        },
        OpOf::DsStoreB128 { src, .. } => {
            assert(uses[1] == src);
            assert(op_vreg_refs(op).contains(src));
            lemma_v_range(k, ops, ra, src, 4);
        },
        OpOf::Wmma { dst, a, b, c, .. } => {
            assert(uses[0] == a);
            assert(uses[8] == b);
            assert(uses[16] == c);
            assert(defs[0] == dst);
            assert(op_vreg_refs(op).contains(a) && op_vreg_refs(op).contains(b));
            assert(op_vreg_refs(op).contains(c) && op_vreg_refs(op).contains(dst));
            lemma_v_range(k, ops, ra, dst, 8);
            lemma_v_range(k, ops, ra, a, 8);
            lemma_v_range(k, ops, ra, b, 8);
            lemma_v_range(k, ops, ra, c, 8);
        },
        OpOf::ScalarLoad { dst, base, width, .. } => {
            if width.regs() == 1 {
                assert(op_sreg_defs(op)[0] == dst);
                assert(op_sreg_defs(op).contains(dst));
                assert(ra.has_s(dst));
                assert(sregs(dst, 1)[0] == dst);
            } else {
                lemma_s_range(k, ops, ra, dst, width.regs());
            }
        },
        _ => {},
    }
}

/// A kernel whose operations name registers by the first of several only where those were
/// handed out together can be written down wherever its registers are placed.
pub proof fn settled_kernels_are_encodable(k: KernelState, ops: Seq<Op>, ra: RegAlloc)
    requires
        k.wf(),
        k.next_sreg < FIRST_RESERVED_SREG,
        k.ops == op_texts(ops),
        kernel_settled(k),
        registers_placed(k, ops, ra),
    ensures
        all_encodable(ops, ra),
{
    reveal(settled);
    assert forall|i: int| 0 <= i < ops.len() implies encodable(#[trigger] ops[i], ra) by {
        assert(op_settled(k.ops[i], k.vreg_allocs, k.sreg_allocs));
        lemma_op_encodable(k, ops, i, ra);
    }
}

// ── Room for scalar registers ──
/// Half as much again as the groups hold is enough for them and for what alignment skips.
proof fn lemma_s_end(sa: Seq<SRegAlloc>, n: int, next: nat)
    requires
        0 <= n <= sa.len(),
        tight(sa),
        sregs_ordered(sa, next),
    ensures
        2 * (groups_end(s_groups(sa).take(n), FIRST_SGPR as nat) - FIRST_SGPR) <= 3 * if n == 0 {
            0
        } else {
            sa[n - 1].sreg.0 + sa[n - 1].count
        },
    decreases n,
{
    reveal(tight);
    let groups = s_groups(sa);
    if n > 0 {
        lemma_s_end(sa, n - 1, next);
        assert(groups.take(n).drop_last() =~= groups.take(n - 1));
        assert(groups.take(n).last() == groups[n - 1]);
        let before = groups_end(groups.take(n - 1), FIRST_SGPR as nat);
        let a = sa[n - 1];
        let f = a.alignment.factor();
        assert(2 * (f - 1) <= a.count);
        assert(align_up(before, f as nat) <= before + f - 1) by {
            if before % f as nat != 0 {
                assert(before % f as nat >= 1);
            }
        }
        if n > 1 {
            assert(sa[n - 2].sreg.0 + sa[n - 2].count <= sa[n - 1].sreg.0);
        }
    }
}

/// Every scalar register that a settled operation names is one of a settled kernel, or the
/// pointer to the arguments.
#[verifier::spinoff_prover]
#[verifier::rlimit(40)]
proof fn lemma_op_sregs(k: KernelState, op: Op, s: SReg)
    requires
        k.wf(),
        k.next_sreg <= SETTLED_SREGS,
        op_settled(op@, k.vreg_allocs, k.sreg_allocs),
        (op_sreg_uses(op) + op_sreg_defs(op)).contains(s),
        s.0 < FIRST_RESERVED_SREG,
    ensures
        s_plain(s),
{
    broadcast use vstd::seq_lib::group_seq_properties;

    match op {
        OpOf::ScalarLoad { dst, base, width, .. } => {
            let uses = op_sreg_uses(op);
            let defs = op_sreg_defs(op);
            if uses.contains(s) {
                let j = choose|j: int| 0 <= j < uses.len() && uses[j] == s;
                assert(uses[j] == sregs(SReg(base.0), 2)[j]);
            } else {
                let j = choose|j: int| 0 <= j < defs.len() && defs[j] == s;
                assert(defs[j] == sregs(dst, width.regs())[j]);
                if width.regs() == 1 {
                    assert(s == dst);
                } else {
                    reveal(s_grouped);
                    let i = choose|i: int|
                        0 <= i < k.sreg_allocs.len() && s_covers(
                            #[trigger] k.sreg_allocs[i],
                            dst.0,
                            width.regs(),
                        );
                    assert(k.sreg_allocs[i].sreg.0 + k.sreg_allocs[i].count <= k.next_sreg);
                }
            }
        },
        _ => {},
    }
}

/// The numbers below a bound are that many.
proof fn lemma_small_set(ids: Set<u32>, n: nat)
    requires
        forall|id: u32| #[trigger] ids.contains(id) ==> id < n,
        ids.finite(),
    ensures
        ids.len() <= n,
    decreases n,
{
    if n == 0 {
        assert(ids =~= Set::empty());
    } else {
        let top = (n - 1) as u32;
        let rest = ids.remove(top);
        assert forall|id: u32| #[trigger] rest.contains(id) implies id < n - 1 by {
            assert(ids.contains(id));
        }
        lemma_small_set(rest, (n - 1) as nat);
    }
}

/// Operations name finitely many scalar registers.
proof fn lemma_named_finite(ops: Seq<Op>)
    ensures
        named_sregs(ops).finite(),
    decreases ops.len(),
{
    if ops.len() == 0 {
        assert(named_sregs(ops) =~= Set::empty());
    } else {
        let init = ops.drop_last();
        let last = op_sreg_uses(ops.last()) + op_sreg_defs(ops.last());
        let more = last.map_values(|s: SReg| s.0).to_set();
        lemma_named_finite(init);
        vstd::seq_lib::seq_to_set_is_finite(last.map_values(|s: SReg| s.0));
        assert forall|id: u32| #[trigger] named_sregs(ops).contains(id) implies named_sregs(
            init,
        ).union(more).contains(id) by {
            let i = choose|i: int|
                0 <= i < ops.len() && #[trigger] (op_sreg_uses(ops[i]) + op_sreg_defs(
                    ops[i],
                )).contains(SReg(id));
            if i < init.len() {
                assert((op_sreg_uses(init[i]) + op_sreg_defs(init[i])).contains(SReg(id)));
            } else {
                let j = choose|j: int| 0 <= j < last.len() && last[j] == SReg(id);
                assert(last.map_values(|s: SReg| s.0)[j] == id);
            }
        }
        vstd::set_lib::lemma_set_subset_finite(named_sregs(init).union(more), named_sregs(ops));
    }
}

/// The scalar registers of a settled kernel fit.
proof fn lemma_sregs_fit(k: KernelState, ops: Seq<Op>)
    requires
        k.wf(),
        k.next_sreg <= 39,
        k.ops == op_texts(ops),
        kernel_settled(k),
        named_sregs(ops).finite(),
    ensures
        space_needed(s_groups(k.sreg_allocs), named_sregs(ops), FIRST_SGPR as nat) <= MAX_SGPRS,
{
    let sa = k.sreg_allocs;
    let groups = s_groups(sa);
    let rest = leftover(groups, named_sregs(ops));
    lemma_s_end(sa, sa.len() as int, k.next_sreg);
    assert(groups.take(sa.len() as int) =~= groups);
    if sa.len() > 0 {
        assert(sa[sa.len() - 1].sreg.0 + sa[sa.len() - 1].count <= k.next_sreg);
    }
    assert forall|id: u32| #[trigger] rest.contains(id) implies id < SETTLED_SREGS by {
        reveal(settled);
        let i = choose|i: int|
            0 <= i < ops.len() && #[trigger] (op_sreg_uses(ops[i]) + op_sreg_defs(
                ops[i],
            )).contains(SReg(id));
        assert(op_settled(k.ops[i], k.vreg_allocs, k.sreg_allocs));
        assert(k.ops[i] == ops[i]@);
        lemma_op_sregs(k, ops[i], SReg(id));
    }
    lemma_small_set(rest, SETTLED_SREGS as nat);
}

/// Whether a kernel was lowered, or was not for want of vector registers alone, or for
/// holding more operations than can be counted.
pub open spec fn lacks_only_room(n: nat, r: Result<Lowered, LowerError>) -> bool {
    match r {
        Ok(_) => true,
        Err(LowerError::Registers(AllocError::OutOfVgprs)) => true,
        Err(LowerError::TooLong) => n > MAX_OPS,
        _ => false,
    }
}

/// Lowering such a kernel without passes fails only for want of vector registers, or with
/// more operations than can be counted.
pub proof fn settled_kernels_lack_only_room(
    k: KernelState,
    raw: Seq<Op>,
    options: CompileOptions,
    r: Result<Lowered, LowerError>,
)
    requires
        k.wf(),
        k.next_sreg <= 39,
        k.ops == op_texts(raw),
        k.skip_optimize,
        kernel_settled(k),
        validation_error(k) is None,
        lowering_of(k, raw, options, r),
    ensures
        lacks_only_room(raw.len(), r),
{
    match r {
        Err(LowerError::NotEncodable(ra)) => {
            settled_kernels_are_encodable(k, raw, ra);
        },
        Err(LowerError::Registers(_)) => {
            lemma_named_finite(raw);
            lemma_sregs_fit(k, raw);
        },
        _ => {},
    }
}

/// Such a kernel is lowered wherever its vector registers fit with a place for each, and so
/// all the more where they share places.
pub proof fn settled_kernels_with_room_are_lowered(
    k: KernelState,
    raw: Seq<Op>,
    options: CompileOptions,
    r: Result<Lowered, LowerError>,
)
    requires
        k.wf(),
        k.next_sreg <= 39,
        k.ops == op_texts(raw),
        k.skip_optimize,
        kernel_settled(k),
        validation_error(k) is None,
        raw.len() <= MAX_OPS,
        space_needed(
            v_groups(live_allocs(k.vreg_allocs, raw)),
            named_vregs(raw),
            FIRST_VGPR as nat,
        ) <= MAX_VGPRS,
        lowering_of(k, raw, options, r),
    ensures
        r is Ok,
{
    let live = live_allocs(k.vreg_allocs, raw);
    settled_kernels_lack_only_room(k, raw, options, r);
    lemma_live_ordered(k.vreg_allocs, raw, k.next_vreg);
    lemma_v_groups_valid(live, k.next_vreg);
    kernels_that_fit_apart_fit_shared(v_groups(live), raw, FIRST_VGPR as nat);
}

} // verus!
