//! What a counted loop computes again in every round without need: operations whose sources
//! the loop does not change move in front of it, and multiples of its counter are carried on
//! by an addition.
//!
//! Both passes change loops whose body is straight code for the same lanes.
use vstd::arithmetic::power2::{lemma_pow2_pos, lemma2_to64, pow2};
use vstd::prelude::*;

use crate::fold::{int_operand, operand_value, sources};
use crate::ir::{
    Op, OpOf, Operand, SOperand, SReg, VReg, op_sreg_defs, op_vreg_defs, op_vreg_refs,
    op_vreg_uses,
};
use crate::lives::{check_jumps, jumps};
use crate::opt_passes::{
    backedges, defined_in, detect_loops, hides_lanes, is_loop, lemma_backedges, loop_spans,
    push_range, reads_vreg, writes_vreg,
};

verus! {

/// A count, as far as it can be held.
pub open spec fn capped(n: nat) -> usize {
    if n <= usize::MAX {
        n as usize
    } else {
        usize::MAX
    }
}

// ── Straight loops ──
/// Whether an operation is a label or a branch, or changes which lanes take part.
pub open spec fn breaks_line(op: Op) -> bool {
    ||| hides_lanes(op)
    ||| op is Label
    ||| op is Branch
    ||| op is BranchScc0
    ||| op is BranchScc1
    ||| op is BranchVccz
    ||| op is Endpgm
}

/// Whether the loop from `h` to `i` is entered from above only, and its body is straight code
/// for the same lanes.
pub open spec fn straight(ops: Seq<Op>, h: int, i: int) -> bool {
    &&& forall|k: int| h + 3 <= k < i - 1 ==> !breaks_line(#[trigger] ops[k])
    &&& forall|k: int|
        0 <= k < ops.len() && k != i ==> !(#[trigger] ops[k] is RawAsm) && !jumps(ops[k], ops[h])
}

/// Whether an operation names a vector register.
pub open spec fn names(op: Op, id: u32) -> bool {
    op_vreg_refs(op).contains(VReg(id))
}

/// Whether a register that the operation at `k` writes belongs to it and to what reads it
/// behind it in the loop from `h` to `i`: nothing else names it.
pub open spec fn belongs(ops: Seq<Op>, i: int, k: int, id: u32) -> bool {
    forall|j: int|
        0 <= j < ops.len() && j != k && names(#[trigger] ops[j], id) ==> k < j < i && !writes_vreg(
            ops[j],
            id,
        )
}

// ── Loop-invariant operations ──
/// Whether an operation is one on vector registers that depends on its sources alone.
pub open spec fn plain(op: Op) -> bool {
    sources(op) is Some || op is VMov || op is VFmaF32 || op is VLshlrevB32 || op is VLshrrevB32
}

/// Whether an operation of a straight loop gives the same in every round, in a register of
/// its own.
pub open spec fn invariant_at(ops: Seq<Op>, h: int, i: int, k: int) -> bool {
    &&& h + 3 <= k < i - 1
    &&& straight(ops, h, i)
    &&& plain(ops[k])
    &&& forall|j: int|
        0 <= j < op_vreg_uses(ops[k]).len() ==> !defined_in(
            ops,
            h,
            i,
            (#[trigger] op_vreg_uses(ops[k])[j]).0,
        )
    &&& forall|j: int|
        0 <= j < op_vreg_defs(ops[k]).len() ==> belongs(
            ops,
            i,
            k,
            (#[trigger] op_vreg_defs(ops[k])[j]).0,
        )
}

/// The operations of the body in front of `n` that give the same in every round.
pub open spec fn invariants(ops: Seq<Op>, h: int, i: int, n: int) -> Seq<Op>
    decreases n - (h + 3),
{
    if n <= h + 3 {
        Seq::empty()
    } else if invariant_at(ops, h, i, n - 1) {
        invariants(ops, h, i, n - 1).push(ops[n - 1])
    } else {
        invariants(ops, h, i, n - 1)
    }
}

/// The other operations of the body in front of `n`.
pub open spec fn variants(ops: Seq<Op>, h: int, i: int, n: int) -> Seq<Op>
    decreases n - (h + 3),
{
    if n <= h + 3 {
        Seq::empty()
    } else if invariant_at(ops, h, i, n - 1) {
        variants(ops, h, i, n - 1)
    } else {
        variants(ops, h, i, n - 1).push(ops[n - 1])
    }
}

/// The operations with those that give the same in every round of a loop in front of it.
pub open spec fn hoist_one(ops: Seq<Op>, h: int, i: int) -> Seq<Op> {
    ops.subrange(0, h) + invariants(ops, h, i, i - 1) + ops.subrange(h, h + 3) + variants(
        ops,
        h,
        i,
        i - 1,
    ) + ops.subrange(i - 1, ops.len() as int)
}

/// The operations with the given loops cleared of what gives the same in every round, the
/// last one first, and how many operations moved.
pub open spec fn hoist_spans(ops: Seq<Op>, spans: Seq<(int, int)>) -> (Seq<Op>, nat)
    decreases spans.len(),
{
    if spans.len() == 0 {
        (ops, 0)
    } else {
        let (h, i) = spans.last();
        let rest = hoist_spans(hoist_one(ops, h, i), spans.drop_last());
        (rest.0, rest.1 + invariants(ops, h, i, i - 1).len())
    }
}

/// Whether an operation is a label or a branch, or changes which lanes take part.
fn check_breaks_line(op: &Op) -> (r: bool)
    ensures
        r == breaks_line(*op),
{
    matches!(op, OpOf::SaveExec { .. } | OpOf::RestoreExec { .. } | OpOf::XorExec { .. }
        | OpOf::RawAsm(_) | OpOf::Label(_) | OpOf::Branch(_) | OpOf::BranchScc0(_)
        | OpOf::BranchScc1(_) | OpOf::BranchVccz(_) | OpOf::Endpgm)
}

/// Whether a loop is entered from above only, and its body is straight code for the same
/// lanes.
fn check_straight(ops: &Vec<Op>, h: usize, i: usize) -> (r: bool)
    requires
        h + 3 < i - 1,
        i < ops.len(),
    ensures
        r == straight(ops@, h as int, i as int),
{
    let mut k: usize = h + 3;
    while k < i - 1
        invariant
            h + 3 <= k <= i - 1,
            i < ops.len(),
            forall|j: int| h + 3 <= j < k ==> !breaks_line(#[trigger] ops@[j]),
        decreases i - k,
    {
        if check_breaks_line(&ops[k]) {
            return false;
        }
        k = k + 1;
    }
    let mut k: usize = 0;
    while k < ops.len()
        invariant
            k <= ops.len(),
            h < ops.len(),
            forall|j: int|
                0 <= j < k && j != i ==> !(#[trigger] ops@[j] is RawAsm) && !jumps(
                    ops@[j],
                    ops@[h as int],
                ),
        decreases ops.len() - k,
    {
        if k != i && (matches!(&ops[k], OpOf::RawAsm(_)) || check_jumps(&ops[k], &ops[h])) {
            return false;
        }
        k = k + 1;
    }
    true
}

/// Whether a list of registers holds one.
fn has_reg(regs: &Vec<VReg>, v: VReg) -> (r: bool)
    ensures
        r == regs@.contains(v),
{
    let mut k: usize = 0;
    while k < regs.len()
        invariant
            k <= regs.len(),
            forall|j: int| 0 <= j < k ==> #[trigger] regs@[j] != v,
        decreases regs.len() - k,
    {
        if regs[k] == v {
            assert(regs@[k as int] == v);
            return true;
        }
        k = k + 1;
    }
    false
}

/// Whether an operation of `[from, to)` writes a register.
fn check_defined(ops: &Vec<Op>, from: usize, to: usize, id: u32) -> (r: bool)
    requires
        from <= to <= ops.len(),
    ensures
        r == defined_in(ops@, from as int, to as int, id),
{
    let mut k: usize = from;
    while k < to
        invariant
            from <= k <= to <= ops.len(),
            forall|j: int| from <= j < k ==> !writes_vreg(#[trigger] ops@[j], id),
        decreases to - k,
    {
        let defs = ops[k].vreg_defs();
        if has_reg(&defs, VReg(id)) {
            assert(writes_vreg(ops@[k as int], id));
            return true;
        }
        k = k + 1;
    }
    false
}

/// Whether a register belongs to the operation at `k` and to what reads it behind it.
fn check_belongs(ops: &Vec<Op>, i: usize, k: usize, id: u32) -> (r: bool)
    ensures
        r == belongs(ops@, i as int, k as int, id),
{
    let mut j: usize = 0;
    while j < ops.len()
        invariant
            j <= ops.len(),
            forall|x: int|
                0 <= x < j && x != k && names(#[trigger] ops@[x], id) ==> k < x < i && !writes_vreg(
                    ops@[x],
                    id,
                ),
        decreases ops.len() - j,
    {
        if j != k {
            let refs = ops[j].vreg_refs();
            if has_reg(&refs, VReg(id)) {
                assert(names(ops@[j as int], id));
                if j < k || j >= i {
                    return false;
                }
                let defs = ops[j].vreg_defs();
                if has_reg(&defs, VReg(id)) {
                    return false;
                }
            }
        }
        j = j + 1;
    }
    true
}

/// Whether an operation is one on vector registers that depends on its sources alone.
fn check_plain(op: &Op) -> (r: bool)
    ensures
        r == plain(*op),
{
    matches!(op, OpOf::VAddF32 { .. } | OpOf::VMulF32 { .. } | OpOf::VSubF32 { .. }
        | OpOf::VMaxF32 { .. } | OpOf::VMinF32 { .. } | OpOf::VMinU32 { .. }
        | OpOf::VAddU32 { .. } | OpOf::VSubU32 { .. } | OpOf::VAndB32 { .. }
        | OpOf::VOrB32 { .. } | OpOf::VXorB32 { .. } | OpOf::VMulLoU32 { .. }
        | OpOf::VFmaF32 { .. } | OpOf::VMov { .. } | OpOf::VLshlrevB32 { .. }
        | OpOf::VLshrrevB32 { .. })
}

/// Whether an operation of a straight loop gives the same in every round.
fn check_invariant(ops: &Vec<Op>, h: usize, i: usize, k: usize) -> (r: bool)
    requires
        h + 3 <= k < i - 1,
        i < ops.len(),
        straight(ops@, h as int, i as int),
    ensures
        r == invariant_at(ops@, h as int, i as int, k as int),
{
    if !check_plain(&ops[k]) {
        return false;
    }
    let uses = ops[k].vreg_uses();
    let mut j: usize = 0;
    while j < uses.len()
        invariant
            j <= uses.len(),
            h + 3 <= k < i - 1,
            i < ops.len(),
            uses@ == op_vreg_uses(ops@[k as int]),
            forall|x: int|
                0 <= x < j ==> !defined_in(ops@, h as int, i as int, (#[trigger] uses@[x]).0),
        decreases uses.len() - j,
    {
        if check_defined(ops, h, i, uses[j].0) {
            assert(defined_in(ops@, h as int, i as int, uses@[j as int].0));
            return false;
        }
        j = j + 1;
    }
    let defs = ops[k].vreg_defs();
    let mut j: usize = 0;
    while j < defs.len()
        invariant
            j <= defs.len(),
            defs@ == op_vreg_defs(ops@[k as int]),
            forall|x: int|
                0 <= x < j ==> belongs(ops@, i as int, k as int, (#[trigger] defs@[x]).0),
        decreases defs.len() - j,
    {
        if !check_belongs(ops, i, k, defs[j].0) {
            assert(!belongs(ops@, i as int, k as int, defs@[j as int].0));
            return false;
        }
        j = j + 1;
    }
    true
}

proof fn lemma_parts_len(ops: Seq<Op>, h: int, i: int, n: int)
    requires
        h + 3 <= n,
    ensures
        invariants(ops, h, i, n).len() + variants(ops, h, i, n).len() == n - (h + 3),
    decreases n - (h + 3),
{
    if n > h + 3 {
        lemma_parts_len(ops, h, i, n - 1);
    }
}

/// Without straight code nothing gives the same in every round.
proof fn lemma_crooked(ops: Seq<Op>, h: int, i: int, n: int)
    requires
        h + 3 <= n <= i - 1,
        0 <= h,
        i < ops.len(),
        !straight(ops, h, i),
    ensures
        invariants(ops, h, i, n) == Seq::<Op>::empty(),
        variants(ops, h, i, n) == ops.subrange(h + 3, n),
    decreases n - (h + 3),
{
    if n > h + 3 {
        lemma_crooked(ops, h, i, n - 1);
        assert(ops.subrange(h + 3, n) =~= ops.subrange(h + 3, n - 1).push(ops[n - 1]));
    } else {
        assert(ops.subrange(h + 3, n) =~= Seq::empty());
    }
}

/// Moves what gives the same in every round of a loop in front of it.
fn hoist_loop(ops: Vec<Op>, h: usize, i: usize) -> (r: (Vec<Op>, usize))
    requires
        h + 3 < i - 1,
        i < ops.len(),
    ensures
        r.0@ == hoist_one(ops@, h as int, i as int),
        r.1 == invariants(ops@, h as int, i as int, i - 1).len(),
        r.0@.len() == ops@.len(),
        r.1 <= i - h,
{
    proof {
        lemma_parts_len(ops@, h as int, i as int, i - 1);
    }
    if !check_straight(&ops, h, i) {
        proof {
            lemma_crooked(ops@, h as int, i as int, i - 1);
            assert(hoist_one(ops@, h as int, i as int) =~= ops@);
        }
        return (ops, 0);
    }
    let mut front: Vec<Op> = Vec::new();
    push_range(&mut front, &ops, 0, h);
    let mut back: Vec<Op> = Vec::new();
    let mut count: usize = 0;
    let mut k: usize = h + 3;
    while k < i - 1
        invariant
            h + 3 <= k <= i - 1,
            i < ops.len(),
            straight(ops@, h as int, i as int),
            front@ == ops@.subrange(0, h as int) + invariants(ops@, h as int, i as int, k as int),
            back@ == variants(ops@, h as int, i as int, k as int),
            count == invariants(ops@, h as int, i as int, k as int).len(),
            count <= k - (h + 3),
        decreases i - k,
    {
        if check_invariant(&ops, h, i, k) {
            front.push(ops[k].clone());
            count = count + 1;
        } else {
            back.push(ops[k].clone());
        }
        k = k + 1;
        assert(front@ =~= ops@.subrange(0, h as int) + invariants(
            ops@,
            h as int,
            i as int,
            k as int,
        ));
    }
    push_range(&mut front, &ops, h, h + 3);
    front.append(&mut back);
    push_range(&mut front, &ops, i - 1, ops.len());
    assert(front@ =~= hoist_one(ops@, h as int, i as int));
    (front, count)
}

/// Moves what gives the same in every round of a counted loop in front of it. Returns the
/// operations and how many of them moved.
pub fn hoist_invariants(ops: Vec<Op>) -> (r: (Vec<Op>, usize))
    ensures
        r.0@ == hoist_spans(ops@, loop_spans(ops@)).0,
        r.1 == capped(hoist_spans(ops@, loop_spans(ops@)).1),
        r.0@.len() == ops@.len(),
{
    let loops = detect_loops(ops.as_slice());
    let ghost spans = loop_spans(ops@);
    let ghost len = ops@.len();
    proof {
        lemma_backedges(ops@, ops@.len() as int);
        assert forall|k: int| 0 <= k < loops@.len() implies spans[k] == (
            (#[trigger] loops@[k]).header_idx as int,
            loops@[k].backedge_idx as int,
        ) by {
            assert(is_loop(ops@, backedges(ops@, ops@.len() as int)[k], loops@[k]));
        }
    }
    let mut count: usize = 0;
    let mut result: Vec<Op> = ops;
    let mut k: usize = loops.len();
    assert(spans.take(k as int) =~= spans);
    while k > 0
        invariant
            k <= loops@.len() == spans.len(),
            result@.len() == len,
            forall|j: int|
                0 <= j < loops@.len() ==> spans[j] == (
                    (#[trigger] loops@[j]).header_idx as int,
                    loops@[j].backedge_idx as int,
                ) && loops@[j].header_idx + 3 < loops@[j].backedge_idx - 1
                    && loops@[j].backedge_idx < len,
            hoist_spans(ops@, spans).0 == hoist_spans(result@, spans.take(k as int)).0,
            capped(hoist_spans(ops@, spans).1) == capped(
                count as nat + hoist_spans(result@, spans.take(k as int)).1,
            ),
        decreases k,
    {
        k = k - 1;
        let h: usize = loops[k].header_idx;
        let i: usize = loops[k].backedge_idx;
        proof {
            assert(spans.take(k + 1).drop_last() =~= spans.take(k as int));
            assert(spans.take(k + 1).last() == spans[k as int]);
            assert(loops@[k as int].header_idx == h);
        }
        let (next, moved) = hoist_loop(result, h, i);
        result = next;
        count = count.saturating_add(moved);
    }
    assert(spans.take(0) =~= Seq::empty());
    (result, count)
}

/// What an execution of straight code passes through: in front of every operation the
/// registers hold something, and an operation changes only registers that it writes.
pub open spec fn passes(ops: Seq<Op>, states: Seq<spec_fn(u32) -> u32>) -> bool {
    &&& states.len() == ops.len() + 1
    &&& forall|p: int, id: u32|
        0 <= p < ops.len() && !writes_vreg(ops[p], id) ==> #[trigger] states[p + 1](id)
            == states[p](id)
}

proof fn lemma_unwritten(ops: Seq<Op>, states: Seq<spec_fn(u32) -> u32>, id: u32, p: int, q: int)
    requires
        passes(ops, states),
        0 <= p <= q <= ops.len(),
        forall|j: int| p <= j < q ==> !writes_vreg(#[trigger] ops[j], id),
    ensures
        states[q](id) == states[p](id),
    decreases q - p,
{
    if p < q {
        lemma_unwritten(ops, states, id, p, q - 1);
        assert(!writes_vreg(ops[q - 1], id));
        assert(states[(q - 1) + 1](id) == states[q - 1](id));
    }
}

/// An operation that moves in front of a loop reads there what it read in every round: no
/// round changes its sources. And what it wrote stays: nothing else in the loop writes it, and
/// nothing outside the loop, or in front of it in the loop, names it.
pub proof fn moved_operations_read_the_same(
    ops: Seq<Op>,
    h: int,
    i: int,
    k: int,
    round: Seq<Op>,
    states: Seq<spec_fn(u32) -> u32>,
    p: int,
    id: u32,
)
    requires
        0 <= h < i < ops.len(),
        invariant_at(ops, h, i, k),
        passes(round, states),
        0 <= p <= round.len(),
        forall|x: int|
            0 <= x < round.len() ==> exists|j: int|
                h <= j < i && j != k && #[trigger] ops[j] == #[trigger] round[x],
        reads_vreg(ops[k], id) || writes_vreg(ops[k], id),
    ensures
        states[p](id) == states[0](id),
{
    assert forall|x: int| 0 <= x < p implies !writes_vreg(#[trigger] round[x], id) by {
        let j = choose|j: int| h <= j < i && j != k && #[trigger] ops[j] == round[x];
        if writes_vreg(round[x], id) {
            if reads_vreg(ops[k], id) {
                let y = choose|y: int|
                    0 <= y < op_vreg_uses(ops[k]).len() && op_vreg_uses(ops[k])[y] == VReg(id);
                assert(op_vreg_uses(ops[k])[y].0 == id);
                assert(defined_in(ops, h, i, id));
            } else {
                let y = choose|y: int|
                    0 <= y < op_vreg_defs(ops[k]).len() && op_vreg_defs(ops[k])[y] == VReg(id);
                assert(op_vreg_defs(ops[k])[y].0 == id);
                assert(belongs(ops, i, k, id));
                lemma_defs_are_refs(ops[j], id);
                assert(names(ops[j], id));
            }
        }
    }
    lemma_unwritten(round, states, id, 0, p);
}

proof fn lemma_defs_are_refs(op: Op, id: u32)
    requires
        writes_vreg(op, id),
    ensures
        names(op, id),
{
    let defs = op_vreg_defs(op);
    let uses = op_vreg_uses(op);
    let d = choose|d: int| 0 <= d < defs.len() && defs[d] == VReg(id);
    let refs = op_vreg_refs(op);
    assert(refs == uses + defs || refs == defs + uses);
    if refs == uses + defs {
        assert(refs[uses.len() + d] == VReg(id));
    } else {
        assert(refs[d] == VReg(id));
    }
}

/// Moving keeps every operation: the result is a rearrangement.
pub proof fn hoisting_is_permutation(ops: Seq<Op>, h: int, i: int)
    requires
        0 <= h,
        h + 3 <= i - 1,
        i < ops.len(),
    ensures
        hoist_one(ops, h, i).to_multiset() == ops.to_multiset(),
        hoist_one(ops, h, i).len() == ops.len(),
{
    broadcast use vstd::seq_lib::group_to_multiset_ensures;

    let front = ops.subrange(0, h);
    let test = ops.subrange(h, h + 3);
    let body = ops.subrange(h + 3, i - 1);
    let end = ops.subrange(i - 1, ops.len() as int);
    let moved = invariants(ops, h, i, i - 1);
    let rest = variants(ops, h, i, i - 1);
    lemma_parts_permute(ops, h, i, i - 1);
    lemma_parts_len(ops, h, i, i - 1);
    assert(ops =~= front + test + body + end);
    vstd::seq_lib::lemma_multiset_commutative(front, moved);
    vstd::seq_lib::lemma_multiset_commutative(front + moved, test);
    vstd::seq_lib::lemma_multiset_commutative(front + moved + test, rest);
    vstd::seq_lib::lemma_multiset_commutative(front + moved + test + rest, end);
    vstd::seq_lib::lemma_multiset_commutative(front, test);
    vstd::seq_lib::lemma_multiset_commutative(front + test, body);
    vstd::seq_lib::lemma_multiset_commutative(front + test + body, end);
    assert(hoist_one(ops, h, i).to_multiset() =~= ops.to_multiset());
}

proof fn lemma_parts_permute(ops: Seq<Op>, h: int, i: int, n: int)
    requires
        0 <= h,
        h + 3 <= n <= i - 1,
        i < ops.len(),
    ensures
        invariants(ops, h, i, n).to_multiset().add(variants(ops, h, i, n).to_multiset())
            == ops.subrange(h + 3, n).to_multiset(),
    decreases n,
{
    broadcast use vstd::seq_lib::group_to_multiset_ensures;

    if n > h + 3 {
        lemma_parts_permute(ops, h, i, n - 1);
        assert(ops.subrange(h + 3, n) =~= ops.subrange(h + 3, n - 1).push(ops[n - 1]));
        assert(invariants(ops, h, i, n).to_multiset().add(variants(ops, h, i, n).to_multiset())
            =~= ops.subrange(h + 3, n).to_multiset());
    } else {
        assert(ops.subrange(h + 3, n) =~= Seq::empty());
        assert(invariants(ops, h, i, n).to_multiset().add(variants(ops, h, i, n).to_multiset())
            =~= ops.subrange(h + 3, n).to_multiset());
    }
}

// ── Strength reduction ──
/// The bits of the step of a counter, shifted.
pub open spec fn shifted_step(step: i32, shift: u8) -> u32 {
    ((step as u32) as nat * pow2(shift as nat) % 0x1_0000_0000) as u32
}

/// An operation that computes a multiple of a register by a shift, or, for a counter that
/// steps by one, by a multiplication: where to, of which register, the same operation on its
/// own destination, and the addition that carries it on with the counter.
pub open spec fn multiple(op: Op, step: i32) -> Option<(VReg, VReg, Op, Op)> {
    match op {
        OpOf::VLshlrevB32 { dst, shift, src } => if shift < 32 {
            Some(
                (
                    dst,
                    src,
                    OpOf::VLshlrevB32 { dst, shift, src: dst },
                    OpOf::VAddU32 {
                        dst,
                        src0: Operand::VReg(dst),
                        src1: int_operand(shifted_step(step, shift)),
                    },
                ),
            )
        } else {
            None
        },
        OpOf::VMulLoU32 { dst, src0, src1 } => if step == 1 && src0 != src1 {
            Some(
                (
                    dst,
                    src0,
                    OpOf::VMulLoU32 { dst, src0: dst, src1 },
                    OpOf::VAddU32 {
                        dst,
                        src0: Operand::VReg(dst),
                        src1: Operand::VReg(src1),
                    },
                ),
            )
        } else {
            None
        },
        _ => None,
    }
}

/// The counter of the loop that `i` closes, and its step.
pub open spec fn counter_of(ops: Seq<Op>, i: int) -> (SReg, i32) {
    match ops[i - 1] {
        OpOf::SAddU32 { dst, src1: SOperand::InlineInt(step), .. } => (dst, step),
        _ => (SReg(0), 0),
    }
}

/// Whether the body of a loop leaves its counter alone.
pub open spec fn keeps_counter(ops: Seq<Op>, h: int, i: int) -> bool {
    forall|k: int|
        h + 3 <= k < i - 1 ==> !op_sreg_defs(#[trigger] ops[k]).contains(counter_of(ops, i).0)
}

/// Whether the operation at `m` moves the counter into a register that holds it up to `k`.
pub open spec fn brings_counter(ops: Seq<Op>, i: int, m: int, k: int, v: VReg) -> bool {
    &&& ops[m] matches OpOf::VMovFromSgpr { dst, src } && dst == v && src == counter_of(ops, i).0
    &&& forall|j: int| m < j < k ==> !writes_vreg(#[trigger] ops[j], v.0)
}

/// Whether the operation at `k` computes a multiple of the counter that can be carried from
/// round to round: in a straight loop that leaves its counter alone, into a register of its
/// own, and by a factor that the loop does not change.
pub open spec fn reducible(ops: Seq<Op>, h: int, i: int, k: int) -> bool {
    &&& h + 3 <= k < i - 1
    &&& straight(ops, h, i)
    &&& keeps_counter(ops, h, i)
    &&& multiple(ops[k], counter_of(ops, i).1) matches Some((dst, v, _, _)) && belongs(
        ops,
        i,
        k,
        dst.0,
    ) && (exists|m: int| h + 3 <= m < k && #[trigger] brings_counter(ops, i, m, k, v)) && (
    ops[k] matches OpOf::VMulLoU32 { src1, .. } ==> !defined_in(ops, h, i, src1.0))
}

/// What is in front of the loop for the multiples in front of `n`: each is computed of the
/// counter's first value.
pub open spec fn first_values(ops: Seq<Op>, h: int, i: int, n: int) -> Seq<Op>
    decreases n - (h + 3),
{
    if n <= h + 3 {
        Seq::empty()
    } else {
        let rest = first_values(ops, h, i, n - 1);
        if reducible(ops, h, i, n - 1) {
            let (counter, step) = counter_of(ops, i);
            let (dst, _, scale, _) = multiple(ops[n - 1], step)->0;
            rest.push(OpOf::VMovFromSgpr { dst, src: counter }).push(scale)
        } else {
            rest
        }
    }
}

/// The body in front of `n` without the multiples.
pub open spec fn unreduced(ops: Seq<Op>, h: int, i: int, n: int) -> Seq<Op>
    decreases n - (h + 3),
{
    if n <= h + 3 {
        Seq::empty()
    } else if reducible(ops, h, i, n - 1) {
        unreduced(ops, h, i, n - 1)
    } else {
        unreduced(ops, h, i, n - 1).push(ops[n - 1])
    }
}

/// The additions that carry the multiples in front of `n` on.
pub open spec fn bumps(ops: Seq<Op>, h: int, i: int, n: int) -> Seq<Op>
    decreases n - (h + 3),
{
    if n <= h + 3 {
        Seq::empty()
    } else if reducible(ops, h, i, n - 1) {
        bumps(ops, h, i, n - 1).push((multiple(ops[n - 1], counter_of(ops, i).1)->0).3)
    } else {
        bumps(ops, h, i, n - 1)
    }
}

/// The operations with the multiples of a loop's counter carried from round to round: they
/// are computed in front of the loop, and added to where the counter steps.
pub open spec fn reduce_one(ops: Seq<Op>, h: int, i: int) -> Seq<Op> {
    ops.subrange(0, h) + first_values(ops, h, i, i - 1) + ops.subrange(h, h + 3) + unreduced(
        ops,
        h,
        i,
        i - 1,
    ) + bumps(ops, h, i, i - 1) + ops.subrange(i - 1, ops.len() as int)
}

/// The operations with the multiples of the given loops' counters carried on, the last loop
/// first, and how many multiples were.
pub open spec fn reduce_spans(ops: Seq<Op>, spans: Seq<(int, int)>) -> (Seq<Op>, nat)
    decreases spans.len(),
{
    if spans.len() == 0 {
        (ops, 0)
    } else {
        let (h, i) = spans.last();
        let rest = reduce_spans(reduce_one(ops, h, i), spans.drop_last());
        (rest.0, rest.1 + bumps(ops, h, i, i - 1).len())
    }
}

/// The bits of the step of a counter, shifted.
fn shift_step(step: i32, shift: u8) -> (r: u32)
    requires
        shift < 32,
    ensures
        r == shifted_step(step, shift),
{
    let s: u64 = (step as u32) as u64;
    proof {
        lemma2_to64();
        vstd::arithmetic::power2::lemma_pow2_strictly_increases(shift as nat, 32);
        lemma_pow2_pos(shift as nat);
        assert(s * pow2(shift as nat) <= u64::MAX) by (nonlinear_arith)
            requires
                0 <= s < 0x1_0000_0000,
                0 < pow2(shift as nat) < 0x1_0000_0000,
        ;
        vstd::bits::lemma_u64_shl_is_mul(s, shift as u64);
    }
    ((s << (shift as u64)) % 0x1_0000_0000) as u32
}

/// An operation that computes a multiple of a register.
fn find_multiple(op: &Op, step: i32) -> (r: Option<(VReg, VReg, Op, Op)>)
    ensures
        r == multiple(*op, step),
{
    match op {
        OpOf::VLshlrevB32 { dst, shift, src } => {
            if *shift < 32 {
                let bits: u32 = shift_step(step, *shift);
                let o: Operand = if bits <= 64 {
                    Operand::InlineInt(bits as i32)
                } else {
                    Operand::Literal(bits)
                };
                Some(
                    (
                        *dst,
                        *src,
                        OpOf::VLshlrevB32 { dst: *dst, shift: *shift, src: *dst },
                        OpOf::VAddU32 { dst: *dst, src0: Operand::VReg(*dst), src1: o },
                    ),
                )
            } else {
                None
            }
        },
        OpOf::VMulLoU32 { dst, src0, src1 } => {
            if step == 1 && *src0 != *src1 {
                Some(
                    (
                        *dst,
                        *src0,
                        OpOf::VMulLoU32 { dst: *dst, src0: *dst, src1: *src1 },
                        OpOf::VAddU32 {
                            dst: *dst,
                            src0: Operand::VReg(*dst),
                            src1: Operand::VReg(*src1),
                        },
                    ),
                )
            } else {
                None
            }
        },
        _ => None,
    }
}

/// Whether the body of a loop leaves its counter alone.
fn check_keeps_counter(ops: &Vec<Op>, h: usize, i: usize, counter: SReg) -> (r: bool)
    requires
        h + 3 < i - 1,
        i < ops.len(),
        counter == counter_of(ops@, i as int).0,
    ensures
        r == keeps_counter(ops@, h as int, i as int),
{
    let mut k: usize = h + 3;
    while k < i - 1
        invariant
            h + 3 <= k <= i - 1,
            i < ops.len(),
            counter == counter_of(ops@, i as int).0,
            forall|j: int| h + 3 <= j < k ==> !op_sreg_defs(#[trigger] ops@[j]).contains(counter),
        decreases i - k,
    {
        let defs = ops[k].sreg_defs();
        let mut d: usize = 0;
        while d < defs.len()
            invariant
                d <= defs.len(),
                defs@ == op_sreg_defs(ops@[k as int]),
                h + 3 <= k < i - 1,
                i < ops.len(),
                counter == counter_of(ops@, i as int).0,
                forall|j: int| 0 <= j < d ==> #[trigger] defs@[j] != counter,
            decreases defs.len() - d,
        {
            if defs[d] == counter {
                assert(defs@[d as int] == counter);
                assert(op_sreg_defs(ops@[k as int]).contains(counter));
                return false;
            }
            d = d + 1;
        }
        k = k + 1;
    }
    true
}

/// Whether an operation of the body moves the counter into a register that holds it up to
/// `k`.
fn check_brought(ops: &Vec<Op>, h: usize, i: usize, k: usize, v: VReg, counter: SReg) -> (r: bool)
    requires
        h + 3 <= k < i - 1,
        i < ops.len(),
        counter == counter_of(ops@, i as int).0,
    ensures
        r == exists|m: int|
            h + 3 <= m < k && #[trigger] brings_counter(ops@, i as int, m, k as int, v),
{
    let mut m: usize = k;
    while m > h + 3
        invariant
            h + 3 <= m <= k < i - 1,
            i < ops.len(),
            counter == counter_of(ops@, i as int).0,
            forall|j: int| m <= j < k ==> !writes_vreg(#[trigger] ops@[j], v.0),
            forall|j: int|
                m <= j < k ==> !#[trigger] brings_counter(ops@, i as int, j, k as int, v),
        decreases m,
    {
        m = m - 1;
        match &ops[m] {
            OpOf::VMovFromSgpr { dst, src } => {
                if *dst == v && *src == counter {
                    assert(brings_counter(ops@, i as int, m as int, k as int, v));
                    return true;
                }
            },
            _ => {},
        }
        let defs = ops[m].vreg_defs();
        if has_reg(&defs, v) {
            assert(VReg(v.0) == v);
            assert(writes_vreg(ops@[m as int], v.0));
            assert forall|j: int| h + 3 <= j < k implies !#[trigger] brings_counter(
                ops@,
                i as int,
                j,
                k as int,
                v,
            ) by {
                if j < m {
                    assert(writes_vreg(ops@[m as int], v.0));
                }
            }
            return false;
        }
        assert(VReg(v.0) == v);
    }
    false
}

/// Whether the operation at `k` computes a multiple of the counter that can be carried.
fn check_reducible(ops: &Vec<Op>, h: usize, i: usize, k: usize, counter: SReg, step: i32) -> (r:
    bool)
    requires
        h + 3 <= k < i - 1,
        i < ops.len(),
        straight(ops@, h as int, i as int),
        keeps_counter(ops@, h as int, i as int),
        (counter, step) == counter_of(ops@, i as int),
    ensures
        r == reducible(ops@, h as int, i as int, k as int),
{
    match find_multiple(&ops[k], step) {
        None => false,
        Some((dst, v, _scale, _bump)) => {
            if !check_belongs(ops, i, k, dst.0) || !check_brought(ops, h, i, k, v, counter) {
                return false;
            }
            match &ops[k] {
                OpOf::VMulLoU32 { src1, .. } => !check_defined(ops, h, i, src1.0),
                _ => true,
            }
        },
    }
}

/// Without straight code that leaves the counter alone nothing is carried.
proof fn lemma_nothing_reduced(ops: Seq<Op>, h: int, i: int, n: int)
    requires
        h + 3 <= n <= i - 1,
        0 <= h,
        i < ops.len(),
        !straight(ops, h, i) || !keeps_counter(ops, h, i),
    ensures
        first_values(ops, h, i, n) == Seq::<Op>::empty(),
        bumps(ops, h, i, n) == Seq::<Op>::empty(),
        unreduced(ops, h, i, n) == ops.subrange(h + 3, n),
    decreases n - (h + 3),
{
    if n > h + 3 {
        lemma_nothing_reduced(ops, h, i, n - 1);
        assert(ops.subrange(h + 3, n) =~= ops.subrange(h + 3, n - 1).push(ops[n - 1]));
    } else {
        assert(ops.subrange(h + 3, n) =~= Seq::empty());
    }
}

proof fn lemma_reduced_len(ops: Seq<Op>, h: int, i: int, n: int)
    requires
        h + 3 <= n,
    ensures
        first_values(ops, h, i, n).len() == 2 * bumps(ops, h, i, n).len(),
        bumps(ops, h, i, n).len() + unreduced(ops, h, i, n).len() == n - (h + 3),
    decreases n - (h + 3),
{
    if n > h + 3 {
        lemma_reduced_len(ops, h, i, n - 1);
    }
}

/// Carries the multiples of a loop's counter from round to round.
fn reduce_loop(ops: Vec<Op>, h: usize, i: usize) -> (r: (Vec<Op>, usize))
    requires
        h + 3 < i - 1,
        i < ops.len(),
    ensures
        r.0@ == reduce_one(ops@, h as int, i as int),
        r.1 == bumps(ops@, h as int, i as int, i - 1).len(),
        r.0@.len() >= ops@.len(),
{
    proof {
        lemma_reduced_len(ops@, h as int, i as int, i - 1);
    }
    let (counter, step): (SReg, i32) = match &ops[i - 1] {
        OpOf::SAddU32 { dst, src1: SOperand::InlineInt(step), .. } => (*dst, *step),
        _ => (SReg(0), 0),
    };
    if !check_straight(&ops, h, i) || !check_keeps_counter(&ops, h, i, counter) {
        proof {
            lemma_nothing_reduced(ops@, h as int, i as int, i - 1);
            assert(reduce_one(ops@, h as int, i as int) =~= ops@);
        }
        return (ops, 0);
    }
    let mut front: Vec<Op> = Vec::new();
    push_range(&mut front, &ops, 0, h);
    let mut body: Vec<Op> = Vec::new();
    let mut steps: Vec<Op> = Vec::new();
    let mut k: usize = h + 3;
    while k < i - 1
        invariant
            h + 3 <= k <= i - 1,
            i < ops.len(),
            straight(ops@, h as int, i as int),
            keeps_counter(ops@, h as int, i as int),
            (counter, step) == counter_of(ops@, i as int),
            front@ == ops@.subrange(0, h as int) + first_values(ops@, h as int, i as int, k as int),
            body@ == unreduced(ops@, h as int, i as int, k as int),
            steps@ == bumps(ops@, h as int, i as int, k as int),
        decreases i - k,
    {
        let reduces: bool = check_reducible(&ops, h, i, k, counter, step);
        match (reduces, find_multiple(&ops[k], step)) {
            (true, Some((dst, _v, scale, bump))) => {
                front.push(OpOf::VMovFromSgpr { dst, src: counter });
                front.push(scale);
                steps.push(bump);
            },
            _ => {
                body.push(ops[k].clone());
            },
        }
        k = k + 1;
        assert(front@ =~= ops@.subrange(0, h as int) + first_values(
            ops@,
            h as int,
            i as int,
            k as int,
        ));
    }
    let count: usize = steps.len();
    push_range(&mut front, &ops, h, h + 3);
    front.append(&mut body);
    front.append(&mut steps);
    push_range(&mut front, &ops, i - 1, ops.len());
    assert(front@ =~= reduce_one(ops@, h as int, i as int));
    (front, count)
}

/// Replaces multiplications and shifts of a loop's counter by additions from round to round.
/// Returns the operations and how many were replaced.
///
/// ```text
///   loop:                                 offset = iter << shift
///     offset = iter << shift              loop:
///     ... use offset ...          becomes   ... use offset ...
///     iter += step                          offset += step << shift
///                                           iter += step
/// ```
pub fn strength_reduce(ops: Vec<Op>) -> (r: (Vec<Op>, usize))
    ensures
        r.0@ == reduce_spans(ops@, loop_spans(ops@)).0,
        r.1 == capped(reduce_spans(ops@, loop_spans(ops@)).1),
        r.0@.len() >= ops@.len(),
{
    let loops = detect_loops(ops.as_slice());
    let ghost spans = loop_spans(ops@);
    let ghost len = ops@.len();
    proof {
        lemma_backedges(ops@, ops@.len() as int);
        assert forall|k: int| 0 <= k < loops@.len() implies spans[k] == (
            (#[trigger] loops@[k]).header_idx as int,
            loops@[k].backedge_idx as int,
        ) by {
            assert(is_loop(ops@, backedges(ops@, ops@.len() as int)[k], loops@[k]));
        }
    }
    let mut count: usize = 0;
    let mut result: Vec<Op> = ops;
    let mut k: usize = loops.len();
    assert(spans.take(k as int) =~= spans);
    while k > 0
        invariant
            k <= loops@.len() == spans.len(),
            result@.len() >= len,
            len == ops@.len(),
            forall|j: int|
                0 <= j < loops@.len() ==> spans[j] == (
                    (#[trigger] loops@[j]).header_idx as int,
                    loops@[j].backedge_idx as int,
                ) && loops@[j].header_idx + 3 < loops@[j].backedge_idx - 1
                    && loops@[j].backedge_idx < len,
            reduce_spans(ops@, spans).0 == reduce_spans(result@, spans.take(k as int)).0,
            capped(reduce_spans(ops@, spans).1) == capped(
                count as nat + reduce_spans(result@, spans.take(k as int)).1,
            ),
        decreases k,
    {
        k = k - 1;
        let h: usize = loops[k].header_idx;
        let i: usize = loops[k].backedge_idx;
        proof {
            assert(spans.take(k + 1).drop_last() =~= spans.take(k as int));
            assert(spans.take(k + 1).last() == spans[k as int]);
            assert(loops@[k as int].header_idx == h);
        }
        let (next, reduced) = reduce_loop(result, h, i);
        result = next;
        count = count.saturating_add(reduced);
    }
    assert(spans.take(0) =~= Seq::empty());
    (result, count)
}

/// The value that an operation computes of the counter's: its product with a factor, in 32
/// bits.
pub open spec fn product(x: nat, factor: nat) -> nat {
    (x * factor) % 0x1_0000_0000
}

/// A carried multiple follows its counter: if it is the counter's product with a factor, and
/// the product of the step with that factor is added to it while the counter steps, it is the
/// product of the new counter.
pub proof fn carried_multiples_follow_the_counter(x: nat, step: nat, factor: nat)
    ensures
        product((x + step) % 0x1_0000_0000, factor) == (product(x, factor) + product(step, factor))
            % 0x1_0000_0000,
{
    let m = 0x1_0000_0000int;
    vstd::arithmetic::div_mod::lemma_mul_mod_noop((x + step) as int, factor as int, m);
    vstd::arithmetic::div_mod::lemma_mul_mod_noop_left((x + step) as int, factor as int, m);
    vstd::arithmetic::div_mod::lemma_add_mod_noop((x * factor) as int, (step * factor) as int, m);
    assert((x + step) * factor == x * factor + step * factor) by (nonlinear_arith);
}

/// What a replaced operation computes is carried: the operation on its own destination
/// computes the same of the same value, and the addition adds what the step's product with
/// the same factor is.
pub proof fn carried_steps_are_right(op: Op, step: i32, regs: spec_fn(u32) -> u32)
    requires
        multiple(op, step) is Some,
    ensures
        ({
            let (dst, v, scale, bump) = multiple(op, step)->0;
            &&& match (op, scale) {
                (
                    OpOf::VLshlrevB32 { shift: s, .. },
                    OpOf::VLshlrevB32 { dst: to, shift: t, src },
                ) => s == t && to == dst && src == dst,
                (
                    OpOf::VMulLoU32 { src1: f, .. },
                    OpOf::VMulLoU32 { dst: to, src0, src1: g },
                ) => f == g && to == dst && src0 == dst,
                _ => false,
            }
            &&& bump matches OpOf::VAddU32 { dst: to, src0, src1 } && to == dst && src0
                == Operand::VReg(dst) && operand_value(src1, regs) == match op {
                OpOf::VLshlrevB32 { shift, .. } => product(
                    (step as u32) as nat,
                    pow2(shift as nat),
                ),
                OpOf::VMulLoU32 { src1: f, .. } => product(
                    (step as u32) as nat,
                    regs(f.0) as nat,
                ),
                _ => 0,
            }
        }),
{
    match op {
        OpOf::VLshlrevB32 { shift, .. } => {
            let bits = shifted_step(step, shift);
            if bits <= 64 {
                assert((bits as i32) as u32 == bits);
            }
        },
        OpOf::VMulLoU32 { src1: f, .. } => {
            assert(step as u32 == 1);
            assert(product(1, regs(f.0) as nat) == regs(f.0));
        },
        _ => {},
    }
}

/// A carried register is the multiple's alone: what is left of the loop does not write it,
/// and nothing outside the loop names it.
pub proof fn carried_registers_are_alone(ops: Seq<Op>, h: int, i: int, k: int, j: int)
    requires
        0 <= h < i < ops.len(),
        reducible(ops, h, i, k),
        0 <= j < ops.len(),
        j != k,
    ensures
        ({
            let dst = (multiple(ops[k], counter_of(ops, i).1)->0).0;
            !writes_vreg(ops[j], dst.0) && (names(ops[j], dst.0) ==> k < j < i)
        }),
{
    let dst = (multiple(ops[k], counter_of(ops, i).1)->0).0;
    if writes_vreg(ops[j], dst.0) {
        lemma_defs_are_refs(ops[j], dst.0);
    }
}

} // verus!
