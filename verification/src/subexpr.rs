//! Removal of common subexpressions: where a vector operation computes what a register
//! already holds, it is replaced by a move.
//!
//! What registers hold is followed from operation to operation. At a label it is kept if no
//! path can reach the label from where it was found out without passing on unchanged: if some
//! stretch of the program around the label is entered at its start only, and nothing in it
//! writes the registers or changes which lanes take part.
use vstd::prelude::*;

use crate::fold::{op_sources, sources};
use crate::ir::{
    Op, OpOf, Operand, VReg, op_has_side_effects, op_sreg_defs, op_vreg_defs, op_writes_scc,
    op_writes_vcc,
};
use crate::lives::{check_jumps, jumps, steps_to, unreadable};
use crate::opt_passes::{hides_lanes, writes_vreg};

verus! {

/// A register that holds the result of an operation: the register, what the operation is,
/// and its two sources.
pub type Held = (VReg, u32, Operand, Operand);

/// What an operation computes, as a number for its kind.
pub open spec fn kind_of(op: Op) -> u32 {
    match op {
        OpOf::VAddF32 { .. } => 1,
        OpOf::VSubF32 { .. } => 2,
        OpOf::VMulF32 { .. } => 3,
        OpOf::VMaxF32 { .. } => 4,
        OpOf::VMinF32 { .. } => 5,
        OpOf::VMinU32 { .. } => 6,
        OpOf::VAddU32 { .. } => 7,
        OpOf::VSubU32 { .. } => 8,
        OpOf::VAndB32 { .. } => 9,
        OpOf::VOrB32 { .. } => 10,
        OpOf::VXorB32 { .. } => 11,
        OpOf::VMulLoU32 { .. } => 12,
        _ => 0,
    }
}

/// Whether an operation writes a register that an operand names.
pub open spec fn writes_operand(op: Op, o: Operand) -> bool {
    o matches Operand::VReg(v) && writes_vreg(op, v.0)
}

/// Whether an operation changes what a register holds, or what it was computed from.
pub open spec fn outdates(op: Op, h: Held) -> bool {
    writes_vreg(op, h.0.0) || writes_operand(op, h.2) || writes_operand(op, h.3)
}

/// The register that holds what an operation computes, if one does.
pub open spec fn holder(held: Seq<Held>, op: Op) -> Option<VReg>
    decreases held.len(),
{
    match sources(op) {
        Some((_, a, b)) => if held.len() == 0 {
            None
        } else if held.last().1 == kind_of(op) && held.last().2 == a && held.last().3 == b {
            Some(held.last().0)
        } else {
            holder(held.drop_last(), op)
        },
        None => None,
    }
}

/// An operation with a move in its place, if a register holds what it computes.
pub open spec fn reduced_op(op: Op, held: Seq<Held>) -> Op {
    match (holder(held, op), sources(op)) {
        (Some(v), Some((dst, _, _))) => OpOf::VMov { dst, src: Operand::VReg(v) },
        _ => op,
    }
}

/// What is still held behind an operation.
pub open spec fn still_held(held: Seq<Held>, op: Op) -> Seq<Held>
    decreases held.len(),
{
    if held.len() == 0 {
        held
    } else {
        let rest = still_held(held.drop_last(), op);
        if outdates(op, held.last()) {
            rest
        } else {
            rest.push(held.last())
        }
    }
}

/// What is held behind an operation.
pub open spec fn held_behind(held: Seq<Held>, op: Op) -> Seq<Held> {
    if op is Label || hides_lanes(op) {
        Seq::empty()
    } else {
        let rest = still_held(held, op);
        match sources(op) {
            Some((dst, a, b)) => {
                let h = (dst, kind_of(op), a, b);
                if a == Operand::VReg(dst) || b == Operand::VReg(dst) {
                    rest
                } else {
                    rest.push(h)
                }
            },
            None => rest,
        }
    }
}

/// Whether the operations from `lo` to `hi` are entered at the first of them only: every
/// branch to a label among them is one of them.
pub open spec fn closed_span(ops: Seq<Op>, lo: int, hi: int) -> bool {
    forall|b: int, l: int|
        0 <= b < ops.len() && lo <= l <= hi && #[trigger] jumps(ops[b], ops[l]) ==> lo <= b <= hi
}

/// Whether no operation from `lo` to `hi` changes what a register holds, or which lanes take
/// part.
pub open spec fn undisturbed(ops: Seq<Op>, lo: int, hi: int, h: Held) -> bool {
    forall|k: int|
        lo <= k <= hi ==> !outdates(#[trigger] ops[k], h) && !hides_lanes(ops[k])
}

/// Whether a span shows that what is held in front of the label at `j` is held behind it.
pub open spec fn shows_kept(ops: Seq<Op>, j: int, lo: int, hi: int, h: Held) -> bool {
    0 <= lo <= j <= hi < ops.len() && closed_span(ops, lo, hi) && undisturbed(ops, lo, hi, h)
}

/// Whether what is held in front of the label at `j` is held behind it, whatever path leads
/// there.
pub open spec fn label_keeps(ops: Seq<Op>, j: int, h: Held) -> bool {
    !unreadable(ops) && exists|lo: int, hi: int| #[trigger] shows_kept(ops, j, lo, hi, h)
}

/// What is still held behind the label at `j`.
pub open spec fn held_over(held: Seq<Held>, ops: Seq<Op>, j: int) -> Seq<Held>
    decreases held.len(),
{
    if held.len() == 0 {
        held
    } else {
        let rest = held_over(held.drop_last(), ops, j);
        if label_keeps(ops, j, held.last()) {
            rest.push(held.last())
        } else {
            rest
        }
    }
}

/// What is held behind the first `n` operations.
pub open spec fn held_at(ops: Seq<Op>, n: int) -> Seq<Held>
    decreases n,
{
    if n <= 0 {
        Seq::empty()
    } else {
        let before = held_at(ops, n - 1);
        if ops[n - 1] is Label {
            held_over(before, ops, n - 1)
        } else {
            held_behind(before, reduced_op(ops[n - 1], before))
        }
    }
}

/// The operations with common subexpressions removed.
pub open spec fn without_common(ops: Seq<Op>) -> Seq<Op> {
    Seq::new(ops.len(), |i: int| reduced_op(ops[i], held_at(ops, i)))
}

/// How many of the first `n` operations are replaced.
pub open spec fn common_count(ops: Seq<Op>, n: int) -> nat
    decreases n,
{
    if n <= 0 {
        0
    } else {
        common_count(ops, n - 1) + if holder(held_at(ops, n - 1), ops[n - 1]) is Some {
            1nat
        } else {
            0
        }
    }
}

/// What an operation computes, as a number for its kind.
fn kind(op: &Op) -> (r: u32)
    ensures
        r == kind_of(*op),
{
    match op {
        OpOf::VAddF32 { .. } => 1,
        OpOf::VSubF32 { .. } => 2,
        OpOf::VMulF32 { .. } => 3,
        OpOf::VMaxF32 { .. } => 4,
        OpOf::VMinF32 { .. } => 5,
        OpOf::VMinU32 { .. } => 6,
        OpOf::VAddU32 { .. } => 7,
        OpOf::VSubU32 { .. } => 8,
        OpOf::VAndB32 { .. } => 9,
        OpOf::VOrB32 { .. } => 10,
        OpOf::VXorB32 { .. } => 11,
        OpOf::VMulLoU32 { .. } => 12,
        _ => 0,
    }
}

/// Whether a list of registers holds one of a number.
fn has_reg(regs: &Vec<VReg>, v: VReg) -> (r: bool)
    ensures
        r == regs@.contains(v),
{
    let mut i: usize = 0;
    while i < regs.len()
        invariant
            i <= regs.len(),
            forall|k: int| 0 <= k < i ==> #[trigger] regs@[k] != v,
        decreases regs.len() - i,
    {
        if regs[i] == v {
            assert(regs@[i as int] == v);
            return true;
        }
        i = i + 1;
    }
    false
}

/// Whether an operand names one of a list of registers.
fn has_operand(regs: &Vec<VReg>, o: Operand) -> (r: bool)
    ensures
        r == (o matches Operand::VReg(v) && regs@.contains(v)),
{
    match o {
        Operand::VReg(v) => has_reg(regs, v),
        _ => false,
    }
}

/// The register that holds what an operation computes, if one does.
fn find_holder(held: &Vec<Held>, op: &Op) -> (r: Option<VReg>)
    ensures
        r == holder(held@, *op),
{
    match op_sources(op) {
        None => None,
        Some((_, a, b)) => {
            let tag: u32 = kind(op);
            let mut i: usize = held.len();
            assert(held@.take(i as int) =~= held@);
            while i > 0
                invariant
                    i <= held.len(),
                    tag == kind_of(*op),
                    sources(*op) matches Some((_, x, y)) && x == a && y == b,
                    holder(held@, *op) == holder(held@.take(i as int), *op),
                decreases i,
            {
                let ghost part = held@.take(i as int);
                assert(part.last() == held@[i - 1]);
                assert(part.drop_last() =~= held@.take(i - 1));
                let h: Held = held[i - 1];
                if h.1 == tag && h.2 == a && h.3 == b {
                    return Some(h.0);
                }
                i = i - 1;
            }
            None
        },
    }
}

/// Brings what is held up to date behind an operation.
pub(crate) fn advance(held: &Vec<Held>, op: &Op) -> (r: Vec<Held>)
    ensures
        r@ == held_behind(held@, *op),
{
    let mut out: Vec<Held> = Vec::new();
    if matches!(op, OpOf::Label(_) | OpOf::SaveExec { .. } | OpOf::RestoreExec { .. }
        | OpOf::XorExec { .. } | OpOf::RawAsm(_)) {
        assert(out@ =~= Seq::empty());
        return out;
    }
    let defs = op.vreg_defs();
    let mut i: usize = 0;
    assert(held@.take(0) =~= Seq::empty());
    while i < held.len()
        invariant
            i <= held.len(),
            defs@ == op_vreg_defs(*op),
            out@ == still_held(held@.take(i as int), *op),
        decreases held.len() - i,
    {
        let h: Held = held[i];
        let gone: bool = has_reg(&defs, h.0) || has_operand(&defs, h.2) || has_operand(&defs, h.3);
        assert(gone == outdates(*op, h)) by {
            assert(VReg(h.0.0) == h.0);
        }
        if !gone {
            out.push(h);
        }
        i = i + 1;
        assert(held@.take(i as int).drop_last() =~= held@.take(i - 1));
        assert(held@.take(i as int).last() == h);
    }
    assert(held@.take(i as int) =~= held@);
    match op_sources(op) {
        Some((dst, a, b)) => {
            if a != Operand::VReg(dst) && b != Operand::VReg(dst) {
                out.push((dst, kind(op), a, b));
            }
        },
        None => {},
    }
    out
}

/// The smallest span around `j` that is entered at its start only.
fn find_span(ops: &Vec<Op>, j: usize) -> (r: (usize, usize))
    requires
        j < ops.len(),
    ensures
        r.0 <= j <= r.1 < ops.len(),
        closed_span(ops@, r.0 as int, r.1 as int),
        forall|lo: int, hi: int|
            lo <= j <= hi && #[trigger] closed_span(ops@, lo, hi) ==> lo <= r.0 && r.1 <= hi,
{
    let mut lo: usize = j;
    let mut hi: usize = j;
    let mut grown: bool = true;
    while grown
        invariant
            lo <= j <= hi < ops.len(),
            forall|x: int, y: int|
                x <= j <= y && #[trigger] closed_span(ops@, x, y) ==> x <= lo && hi <= y,
            !grown ==> closed_span(ops@, lo as int, hi as int),
        decreases ops.len() + lo - hi + if grown { 1int } else { 0int },
    {
        let ghost was = (lo as int, hi as int);
        grown = false;
        let first: usize = lo;
        let last: usize = hi;
        let mut b: usize = 0;
        while b < ops.len()
            invariant
                b <= ops.len(),
                lo <= first <= j <= last <= hi < ops.len(),
                was == (first as int, last as int),
                grown == (lo < first || last < hi),
                forall|x: int, y: int|
                    x <= j <= y && #[trigger] closed_span(ops@, x, y) ==> x <= lo && hi <= y,
                forall|c: int, l: int|
                    0 <= c < b && first <= l <= last && #[trigger] jumps(ops@[c], ops@[l]) ==> lo
                        <= c <= hi,
            decreases ops.len() - b,
        {
            let mut l: usize = first;
            while l <= last
                invariant
                    b < ops.len(),
                    first <= l <= last + 1,
                    lo <= first <= j <= last <= hi < ops.len(),
                    was == (first as int, last as int),
                    grown == (lo < first || last < hi),
                    forall|x: int, y: int|
                        x <= j <= y && #[trigger] closed_span(ops@, x, y) ==> x <= lo && hi <= y,
                    forall|c: int, m: int|
                        0 <= c < b && first <= m <= last && #[trigger] jumps(ops@[c], ops@[m])
                            ==> lo <= c <= hi,
                    forall|m: int|
                        first <= m < l && #[trigger] jumps(ops@[b as int], ops@[m]) ==> lo <= b
                            <= hi,
                decreases last + 1 - l,
            {
                if check_jumps(&ops[b], &ops[l]) {
                    assert(jumps(ops@[b as int], ops@[l as int]));
                    if b < lo {
                        lo = b;
                        grown = true;
                    }
                    if b > hi {
                        hi = b;
                        grown = true;
                    }
                }
                l = l + 1;
            }
            b = b + 1;
        }
    }
    (lo, hi)
}

/// Whether an operation changes which lanes take part, or is text that is not read.
fn check_hides(op: &Op) -> (r: bool)
    ensures
        r == hides_lanes(*op),
{
    matches!(op, OpOf::SaveExec { .. } | OpOf::RestoreExec { .. } | OpOf::XorExec { .. }
        | OpOf::RawAsm(_))
}

/// Whether no operation from `lo` to `hi` changes what a register holds, or which lanes take
/// part.
fn check_undisturbed(ops: &Vec<Op>, lo: usize, hi: usize, h: &Held) -> (r: bool)
    requires
        lo <= hi < ops.len(),
    ensures
        r == undisturbed(ops@, lo as int, hi as int, *h),
{
    let mut k: usize = lo;
    while k <= hi
        invariant
            lo <= k <= hi + 1,
            hi < ops.len(),
            forall|j: int|
                lo <= j < k ==> !outdates(#[trigger] ops@[j], *h) && !hides_lanes(ops@[j]),
        decreases hi + 1 - k,
    {
        let defs = ops[k].vreg_defs();
        assert(VReg(h.0.0) == h.0);
        if check_hides(&ops[k]) || has_reg(&defs, h.0) || has_operand(&defs, h.2) || has_operand(
            &defs,
            h.3,
        ) {
            assert(outdates(ops@[k as int], *h) || hides_lanes(ops@[k as int]));
            return false;
        }
        k = k + 1;
    }
    true
}

/// What is still held behind the label at `j`.
fn keep_over(held: &Vec<Held>, ops: &Vec<Op>, j: usize) -> (r: Vec<Held>)
    requires
        j < ops.len(),
    ensures
        r@ == held_over(held@, ops@, j as int),
{
    let mut out: Vec<Held> = Vec::new();
    let mut raw: bool = false;
    let mut k: usize = 0;
    while k < ops.len()
        invariant
            k <= ops.len(),
            raw == exists|x: int| 0 <= x < k && #[trigger] ops@[x] is RawAsm,
        decreases ops.len() - k,
    {
        if matches!(&ops[k], OpOf::RawAsm(_)) {
            raw = true;
        }
        k = k + 1;
    }
    assert(raw == unreadable(ops@));
    let (lo, hi): (usize, usize) = find_span(ops, j);
    let mut i: usize = 0;
    assert(held@.take(0) =~= Seq::empty());
    while i < held.len()
        invariant
            i <= held.len(),
            lo <= j <= hi < ops.len(),
            raw == unreadable(ops@),
            closed_span(ops@, lo as int, hi as int),
            forall|x: int, y: int|
                x <= j <= y && #[trigger] closed_span(ops@, x, y) ==> x <= lo && hi <= y,
            out@ == held_over(held@.take(i as int), ops@, j as int),
        decreases held.len() - i,
    {
        let h: Held = held[i];
        let keeps: bool = !raw && check_undisturbed(ops, lo, hi, &h);
        proof {
            if keeps {
                assert(shows_kept(ops@, j as int, lo as int, hi as int, h));
            }
            if label_keeps(ops@, j as int, h) {
                let (x, y) = choose|x: int, y: int| #[trigger] shows_kept(ops@, j as int, x, y, h);
                assert(closed_span(ops@, x, y));
                assert(undisturbed(ops@, lo as int, hi as int, h));
            }
        }
        if keeps {
            out.push(h);
        }
        i = i + 1;
        assert(held@.take(i as int).drop_last() =~= held@.take(i - 1));
        assert(held@.take(i as int).last() == h);
    }
    assert(held@.take(i as int) =~= held@);
    out
}

/// Removes common subexpressions. Returns the operations and how many of them were replaced.
pub fn remove_common(ops: Vec<Op>) -> (r: (Vec<Op>, usize))
    ensures
        r.0@ == without_common(ops@),
        r.1 == common_count(ops@, ops@.len() as int),
{
    let mut out: Vec<Op> = Vec::new();
    let mut held: Vec<Held> = Vec::new();
    let mut count: usize = 0;
    let mut i: usize = 0;
    assert(held@ =~= held_at(ops@, 0));
    while i < ops.len()
        invariant
            i <= ops.len(),
            out@ == without_common(ops@).take(i as int),
            held@ == held_at(ops@, i as int),
            count == common_count(ops@, i as int),
            count <= i,
        decreases ops.len() - i,
    {
        let op: Op = match (find_holder(&held, &ops[i]), op_sources(&ops[i])) {
            (Some(v), Some((dst, _, _))) => {
                count = count + 1;
                OpOf::VMov { dst, src: Operand::VReg(v) }
            },
            _ => ops[i].clone(),
        };
        assert(op == without_common(ops@)[i as int]);
        held = if matches!(&op, OpOf::Label(_)) {
            keep_over(&held, &ops, i)
        } else {
            advance(&held, &op)
        };
        out.push(op);
        i = i + 1;
        assert(without_common(ops@).take(i as int) =~= without_common(ops@).take(i - 1).push(op));
    }
    assert(out@ =~= without_common(ops@));
    (out, count)
}

/// Removing common subexpressions keeps every operation in its place, with its destination;
/// what changes leaves condition codes and scalar registers alone.
pub proof fn removal_keeps_destinations(ops: Seq<Op>, i: int)
    requires
        0 <= i < ops.len(),
    ensures
        without_common(ops).len() == ops.len(),
        op_vreg_defs(without_common(ops)[i]) == op_vreg_defs(ops[i]),
        op_sreg_defs(without_common(ops)[i]) == op_sreg_defs(ops[i]),
        op_writes_vcc(without_common(ops)[i]) == op_writes_vcc(ops[i]),
        op_writes_scc(without_common(ops)[i]) == op_writes_scc(ops[i]),
        op_has_side_effects(without_common(ops)[i]) == op_has_side_effects(ops[i]),
{
}

/// What an operand is worth when the registers hold given bits.
pub open spec fn value_of(o: Operand, regs: spec_fn(u32) -> u32) -> u32 {
    crate::fold::operand_value(o, regs)
}

/// Whether registers hold what they are held to: each has the value that some function of
/// the kind gives for the values of its sources.
pub open spec fn holds(
    held: Seq<Held>,
    regs: spec_fn(u32) -> u32,
    f: spec_fn(u32, u32, u32) -> u32,
) -> bool {
    forall|k: int|
        0 <= k < held.len() ==> regs((#[trigger] held[k]).0.0) == f(
            held[k].1,
            value_of(held[k].2, regs),
            value_of(held[k].3, regs),
        )
}

/// A replaced operation moves what it computed: whatever the kinds of operations compute of
/// their sources, where registers hold what they are held to, the register that is moved
/// has the value that the operation gives.
pub proof fn moved_values_are_right(
    op: Op,
    held: Seq<Held>,
    regs: spec_fn(u32) -> u32,
    f: spec_fn(u32, u32, u32) -> u32,
)
    requires
        holds(held, regs, f),
        holder(held, op) is Some,
    ensures
        sources(op) matches Some((_, a, b)) && regs((holder(held, op)->0).0) == f(
            kind_of(op),
            value_of(a, regs),
            value_of(b, regs),
        ),
    decreases held.len(),
{
    let last = held.len() - 1;
    if held.len() > 0 {
        let (_, a, b) = sources(op)->0;
        let h = held[last];
        if !(h.1 == kind_of(op) && h.2 == a && h.3 == b) {
            assert forall|k: int| 0 <= k < held.drop_last().len() implies regs(
                (#[trigger] held.drop_last()[k]).0.0,
            ) == f(
                held.drop_last()[k].1,
                value_of(held.drop_last()[k].2, regs),
                value_of(held.drop_last()[k].3, regs),
            ) by {
                assert(held.drop_last()[k] == held[k]);
            }
            moved_values_are_right(op, held.drop_last(), regs, f);
        }
    }
}

proof fn lemma_still_held(
    op: Op,
    held: Seq<Held>,
    regs: spec_fn(u32) -> u32,
    after: spec_fn(u32) -> u32,
    f: spec_fn(u32, u32, u32) -> u32,
)
    requires
        holds(held, regs, f),
        forall|id: u32| !writes_vreg(op, id) ==> #[trigger] after(id) == regs(id),
    ensures
        holds(still_held(held, op), after, f),
    decreases held.len(),
{
    if held.len() > 0 {
        let init = held.drop_last();
        assert forall|k: int| 0 <= k < init.len() implies regs((#[trigger] init[k]).0.0) == f(
            init[k].1,
            value_of(init[k].2, regs),
            value_of(init[k].3, regs),
        ) by {
            assert(init[k] == held[k]);
        }
        lemma_still_held(op, init, regs, after, f);
        let h = held.last();
        if !outdates(op, h) {
            assert(h == held[held.len() - 1]);
            assert(after(h.0.0) == regs(h.0.0));
            assert(value_of(h.2, after) == value_of(h.2, regs));
            assert(value_of(h.3, after) == value_of(h.3, regs));
            let rest = still_held(init, op);
            let all = rest.push(h);
            assert forall|k: int| 0 <= k < all.len() implies after((#[trigger] all[k]).0.0) == f(
                all[k].1,
                value_of(all[k].2, after),
                value_of(all[k].3, after),
            ) by {
                if k < rest.len() {
                    assert(all[k] == rest[k]);
                }
            }
        }
    }
}

/// What is held stays right: if registers hold what they are held to, and an operation
/// changes only registers that it writes, and puts there what its kind gives for the values
/// of its sources, they hold what is held behind it.
pub proof fn held_stays_right(
    op: Op,
    held: Seq<Held>,
    regs: spec_fn(u32) -> u32,
    after: spec_fn(u32) -> u32,
    f: spec_fn(u32, u32, u32) -> u32,
)
    requires
        holds(held, regs, f),
        forall|id: u32| !writes_vreg(op, id) ==> #[trigger] after(id) == regs(id),
        sources(op) matches Some((dst, a, b)) ==> after(dst.0) == f(
            kind_of(op),
            value_of(a, regs),
            value_of(b, regs),
        ),
    ensures
        holds(held_behind(held, op), after, f),
{
    lemma_still_held(op, held, regs, after, f);
    let rest = still_held(held, op);
    match sources(op) {
        Some((dst, a, b)) => {
            let h = (dst, kind_of(op), a, b);
            assert(op_vreg_defs(op) =~= seq![dst]);
            if a != Operand::VReg(dst) && b != Operand::VReg(dst) {
                assert(value_of(a, after) == value_of(a, regs)) by {
                    match a {
                        Operand::VReg(v) => {
                            assert(!writes_vreg(op, v.0));
                            assert(after(v.0) == regs(v.0));
                        },
                        _ => {},
                    }
                }
                assert(value_of(b, after) == value_of(b, regs)) by {
                    match b {
                        Operand::VReg(v) => {
                            assert(!writes_vreg(op, v.0));
                            assert(after(v.0) == regs(v.0));
                        },
                        _ => {},
                    }
                }
                let all = rest.push(h);
                assert forall|k: int| 0 <= k < all.len() implies after((#[trigger] all[k]).0.0)
                    == f(all[k].1, value_of(all[k].2, after), value_of(all[k].3, after)) by {
                    if k < rest.len() {
                        assert(all[k] == rest[k]);
                    }
                }
            }
        },
        None => {},
    }
}

// ── Executions ──
/// Whether one register holds what it is held to.
pub open spec fn held_true(
    h: Held,
    regs: spec_fn(u32) -> u32,
    f: spec_fn(u32, u32, u32) -> u32,
) -> bool {
    regs(h.0.0) == f(h.1, value_of(h.2, regs), value_of(h.3, regs))
}

/// An execution: where it is and what the registers hold, step by step.
pub struct Execution {
    pub at: Seq<int>,
    pub regs: Seq<spec_fn(u32) -> u32>,
}

/// Whether an execution runs operations from the first one on: it goes from each to the next
/// one or where it branches, an operation changes only registers that it writes, and one that
/// computes something of its sources puts that into its destination.
pub open spec fn runs(ops: Seq<Op>, e: Execution, f: spec_fn(u32, u32, u32) -> u32) -> bool {
    &&& e.at.len() == e.regs.len()
    &&& e.at.len() > 0 ==> e.at[0] == 0
    &&& forall|t: int| 0 <= t < e.at.len() ==> 0 <= #[trigger] e.at[t] < ops.len()
    &&& forall|t: int|
        0 <= t < e.at.len() - 1 ==> steps_to(ops, e.at[t], #[trigger] e.at[t + 1]) && changes(
            ops[e.at[t]],
            e.regs[t],
            e.regs[t + 1],
            f,
        )
}

/// Whether an operation can change registers so: only those that it writes, and by what it
/// computes of its sources.
pub open spec fn changes(
    op: Op,
    regs: spec_fn(u32) -> u32,
    after: spec_fn(u32) -> u32,
    f: spec_fn(u32, u32, u32) -> u32,
) -> bool {
    &&& forall|id: u32| !writes_vreg(op, id) ==> #[trigger] after(id) == regs(id)
    &&& sources(op) matches Some((dst, a, b)) ==> after(dst.0) == f(
        kind_of(op),
        value_of(a, regs),
        value_of(b, regs),
    )
}

/// What is known to be held where an execution is at `p`, however it came there.
pub open spec fn known_held(ops: Seq<Op>, p: int) -> Seq<Held> {
    if ops[p] is Label {
        held_at(ops, p + 1)
    } else {
        held_at(ops, p)
    }
}

proof fn lemma_held_over(held: Seq<Held>, ops: Seq<Op>, j: int, h: Held)
    requires
        held_over(held, ops, j).contains(h),
    ensures
        held.contains(h),
        label_keeps(ops, j, h),
    decreases held.len(),
{
    let all = held_over(held, ops, j);
    let w = choose|w: int| 0 <= w < all.len() && all[w] == h;
    if held.len() > 0 {
        let rest = held_over(held.drop_last(), ops, j);
        if w < rest.len() {
            assert(rest[w] == h);
            lemma_held_over(held.drop_last(), ops, j, h);
            let x = choose|x: int| 0 <= x < held.drop_last().len() && held.drop_last()[x] == h;
            assert(held[x] == h);
        } else {
            assert(held[held.len() - 1] == h);
        }
    }
}

proof fn lemma_still_held_from(held: Seq<Held>, op: Op, h: Held)
    requires
        still_held(held, op).contains(h),
    ensures
        held.contains(h),
    decreases held.len(),
{
    let all = still_held(held, op);
    let w = choose|w: int| 0 <= w < all.len() && all[w] == h;
    if held.len() > 0 {
        let rest = still_held(held.drop_last(), op);
        if w < rest.len() {
            assert(rest[w] == h);
            lemma_still_held_from(held.drop_last(), op, h);
            let x = choose|x: int| 0 <= x < held.drop_last().len() && held.drop_last()[x] == h;
            assert(held[x] == h);
        } else {
            assert(held[held.len() - 1] == h);
        }
    }
}

/// What is held in front of an operation and was not changed since, was held before.
proof fn lemma_held_back(ops: Seq<Op>, lo: int, j: int, h: Held)
    requires
        0 <= lo <= j <= ops.len(),
        held_at(ops, j).contains(h),
        forall|k: int| lo <= k < j ==> !outdates(#[trigger] ops[k], h),
    ensures
        held_at(ops, lo).contains(h),
    decreases j - lo,
{
    if lo < j {
        let before = held_at(ops, j - 1);
        let op = reduced_op(ops[j - 1], before);
        assert(!outdates(ops[j - 1], h));
        if ops[j - 1] is Label {
            lemma_held_over(before, ops, j - 1, h);
        } else {
            let all = held_behind(before, op);
            let w = choose|w: int| 0 <= w < all.len() && all[w] == h;
            let rest = still_held(before, op);
            if w < rest.len() {
                assert(rest[w] == h);
                lemma_still_held_from(before, op, h);
            } else {
                assert(sources(op) is Some);
                assert(op_vreg_defs(op)[0] == h.0);
                removal_keeps_destinations(ops, j - 1);
                assert(without_common(ops)[j - 1] == op);
                assert(writes_vreg(ops[j - 1], h.0.0)) by {
                    assert(op_vreg_defs(ops[j - 1])[0] == VReg(h.0.0));
                }
            }
        }
        lemma_held_back(ops, lo, j - 1, h);
    }
}

/// What holds of an execution at one moment: what is known to be held where it is, is held,
/// and in every span that is entered at its start only, what was held in front of it and is
/// not changed in it.
spec fn sound_at(ops: Seq<Op>, e: Execution, f: spec_fn(u32, u32, u32) -> u32, t: int) -> bool {
    &&& forall|h: Held| #[trigger]
        known_held(ops, e.at[t]).contains(h) ==> held_true(h, e.regs[t], f)
    &&& forall|lo: int, hi: int, h: Held|
        lo <= e.at[t] <= hi && #[trigger] spans(ops, lo, hi, h) ==> held_true(h, e.regs[t], f)
}

/// Whether something is held in front of a span and not changed in it.
spec fn spans(ops: Seq<Op>, lo: int, hi: int, h: Held) -> bool {
    &&& 0 <= lo <= hi < ops.len()
    &&& closed_span(ops, lo, hi)
    &&& undisturbed(ops, lo, hi, h)
    &&& held_at(ops, lo).contains(h)
}

proof fn lemma_true_stays(
    op: Op,
    h: Held,
    regs: spec_fn(u32) -> u32,
    after: spec_fn(u32) -> u32,
    f: spec_fn(u32, u32, u32) -> u32,
)
    requires
        held_true(h, regs, f),
        changes(op, regs, after, f),
        !outdates(op, h),
    ensures
        held_true(h, after, f),
{
    assert(after(h.0.0) == regs(h.0.0));
    assert(value_of(h.2, after) == value_of(h.2, regs));
    assert(value_of(h.3, after) == value_of(h.3, regs));
}

/// Going on to the next operation, what is held behind an operation is held.
proof fn lemma_goes_on(
    ops: Seq<Op>,
    e: Execution,
    f: spec_fn(u32, u32, u32) -> u32,
    t: int,
    h: Held,
)
    requires
        runs(without_common(ops), e, f),
        0 <= t < e.at.len() - 1,
        sound_at(ops, e, f, t),
        held_at(ops, e.at[t] + 1).contains(h),
    ensures
        held_true(h, e.regs[t + 1], f),
{
    let p = e.at[t];
    let out = without_common(ops);
    assert(steps_to(out, p, e.at[t + 1]) && changes(out[p], e.regs[t], e.regs[t + 1], f));
    if ops[p] is Label {
        assert(known_held(ops, p).contains(h));
        assert(op_vreg_defs(out[p]) =~= Seq::empty());
        lemma_true_stays(out[p], h, e.regs[t], e.regs[t + 1], f);
    } else {
        let before = held_at(ops, p);
        assert forall|k: int| 0 <= k < before.len() implies e.regs[t]((#[trigger] before[k]).0.0)
            == f(
            before[k].1,
            value_of(before[k].2, e.regs[t]),
            value_of(before[k].3, e.regs[t]),
        ) by {
            assert(known_held(ops, p).contains(before[k]));
            assert(held_true(before[k], e.regs[t], f));
        }
        held_stays_right(out[p], before, e.regs[t], e.regs[t + 1], f);
        let all = held_at(ops, p + 1);
        assert(all == held_behind(before, out[p]));
        let w = choose|w: int| 0 <= w < all.len() && all[w] == h;
        assert(e.regs[t + 1](all[w].0.0) == f(
            all[w].1,
            value_of(all[w].2, e.regs[t + 1]),
            value_of(all[w].3, e.regs[t + 1]),
        ));
    }
}

#[verifier::spinoff_prover]
#[verifier::rlimit(40)]
proof fn lemma_sound_step(
    ops: Seq<Op>,
    e: Execution,
    f: spec_fn(u32, u32, u32) -> u32,
    t: int,
)
    requires
        runs(without_common(ops), e, f),
        0 <= t < e.at.len() - 1,
        sound_at(ops, e, f, t),
    ensures
        sound_at(ops, e, f, t + 1),
{
    let out = without_common(ops);
    let p = e.at[t];
    let q = e.at[t + 1];
    assert(0 <= p < ops.len() && 0 <= q < ops.len());
    assert(steps_to(out, p, q) && changes(out[p], e.regs[t], e.regs[t + 1], f));
    removal_keeps_destinations(ops, p);
    lemma_branches_stay(ops, p, q);
    assert forall|lo: int, hi: int, h: Held|
        lo <= q <= hi && #[trigger] spans(ops, lo, hi, h) implies held_true(
        h,
        e.regs[t + 1],
        f,
    ) by {
        if lo <= p <= hi {
            assert(held_true(h, e.regs[t], f));
            assert(!outdates(ops[p], h));
            lemma_true_stays(out[p], h, e.regs[t], e.regs[t + 1], f);
        } else {
            if jumps(ops[p], ops[q]) {
                assert(lo <= p <= hi);
            }
            assert(q == p + 1 && q == lo);
            lemma_goes_on(ops, e, f, t, h);
        }
    }
    assert forall|h: Held| #[trigger] known_held(ops, q).contains(h) implies held_true(
        h,
        e.regs[t + 1],
        f,
    ) by {
        if ops[q] is Label {
            lemma_held_over(held_at(ops, q), ops, q, h);
            if q == p + 1 {
                lemma_goes_on(ops, e, f, t, h);
            } else {
                let (lo, hi) = choose|lo: int, hi: int| #[trigger] shows_kept(ops, q, lo, hi, h);
                lemma_held_back(ops, lo, q, h);
                assert(spans(ops, lo, hi, h));
            }
        } else {
            assert(q == p + 1);
            lemma_goes_on(ops, e, f, t, h);
        }
    }
}

/// Replacing operations leaves branches and labels as they are.
proof fn lemma_branches_stay(ops: Seq<Op>, p: int, q: int)
    requires
        0 <= p < ops.len(),
        0 <= q < ops.len(),
        steps_to(without_common(ops), p, q),
    ensures
        q == p + 1 || (jumps(ops[p], ops[q]) && ops[q] is Label),
{
}

proof fn lemma_sound(
    ops: Seq<Op>,
    e: Execution,
    f: spec_fn(u32, u32, u32) -> u32,
    t: int,
)
    requires
        runs(without_common(ops), e, f),
        0 <= t < e.at.len(),
    ensures
        sound_at(ops, e, f, t),
    decreases t,
{
    if t == 0 {
        assert(e.at[0] == 0);
        assert(held_at(ops, 0) =~= Seq::empty());
        if ops[0] is Label {
            assert(held_at(ops, 1) =~= Seq::empty());
        }
        assert forall|lo: int, hi: int, h: Held|
            lo <= e.at[0] <= hi && #[trigger] spans(ops, lo, hi, h) implies held_true(
            h,
            e.regs[0],
            f,
        ) by {
            assert(lo == 0);
            assert(held_at(ops, 0).contains(h));
        }
    } else {
        lemma_sound(ops, e, f, t - 1);
        lemma_sound_step(ops, e, f, t - 1);
    }
}

/// Removing common subexpressions keeps every value, whatever path an execution takes: where
/// it comes to an operation that was replaced, the register that is moved holds what the
/// operation computes of its sources.
pub proof fn replaced_values_are_right_on_every_path(
    ops: Seq<Op>,
    e: Execution,
    f: spec_fn(u32, u32, u32) -> u32,
    t: int,
)
    requires
        runs(without_common(ops), e, f),
        0 <= t < e.at.len(),
        without_common(ops)[e.at[t]] != ops[e.at[t]],
    ensures
        ({
            let p = e.at[t];
            let regs = e.regs[t];
            &&& sources(ops[p]) matches Some((dst, a, b)) && (without_common(ops)[p]
                matches OpOf::VMov { dst: to, src: Operand::VReg(v) } && to == dst && regs(v.0)
                == f(kind_of(ops[p]), value_of(a, regs), value_of(b, regs)))
        }),
{
    let p = e.at[t];
    let held = held_at(ops, p);
    lemma_sound(ops, e, f, t);
    assert(0 <= p < ops.len());
    assert(holder(held, ops[p]) is Some);
    assert(!(ops[p] is Label));
    assert forall|k: int| 0 <= k < held.len() implies e.regs[t]((#[trigger] held[k]).0.0) == f(
        held[k].1,
        value_of(held[k].2, e.regs[t]),
        value_of(held[k].3, e.regs[t]),
    ) by {
        assert(known_held(ops, p).contains(held[k]));
        assert(held_true(held[k], e.regs[t], f));
    }
    moved_values_are_right(ops[p], held, e.regs[t], f);
}

} // verus!
