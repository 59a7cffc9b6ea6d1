//! Which part of a program a group of vector registers is needed in, and a placement in
//! which groups share physical registers when those parts do not meet.
//!
//! A group lives from the first operation that names one of its registers to the last. A
//! loop that such an operation belongs to is lived through as a whole, since its operations
//! run again. So an execution that has left the life of a group never comes back to it.
use std::collections::HashMap;

use vstd::prelude::*;

use crate::ir::{Op, OpOf, SRegAlloc, VReg, VRegAlloc, op_vreg_refs};
use crate::regalloc::{
    AllocError, FIRST_SGPR, FIRST_VGPR, Group, MAX_SGPRS, MAX_VGPRS, RegAlloc, align_up,
    groups_end, groups_valid, in_groups, leftover, named_sregs, named_vregs, place, place_rest,
    placement_of, rank, s_group_vec, s_groups, space_needed, sreg_refs_of, v_group_vec, v_groups,
    vreg_refs_of,
};

verus! {

broadcast use vstd::std_specs::hash::group_hash_axioms;

// ── Control flow ──
/// Where a branch goes, if the operation is one.
pub open spec fn branch_target(op: Op) -> Option<Seq<char>> {
    match op {
        OpOf::Branch(t) => Some(t@),
        OpOf::BranchScc0(t) => Some(t@),
        OpOf::BranchScc1(t) => Some(t@),
        OpOf::BranchVccz(t) => Some(t@),
        _ => None,
    }
}

/// Whether a branch goes to a label.
pub open spec fn jumps(op: Op, label: Op) -> bool {
    label matches OpOf::Label(l) && branch_target(op) == Some(l@)
}

/// Whether one of the operations is text that is not read, which may branch anywhere.
pub open spec fn unreadable(ops: Seq<Op>) -> bool {
    exists|k: int| 0 <= k < ops.len() && #[trigger] ops[k] is RawAsm
}

/// Whether the operation at `b` can branch back over the place in front of operation `p`.
pub open spec fn jumps_over(ops: Seq<Op>, b: int, p: int) -> bool {
    exists|l: int| 0 <= l < p && jumps(ops[b], #[trigger] ops[l])
}

/// Whether an execution can come back over the place in front of operation `p`.
pub open spec fn crossed(ops: Seq<Op>, p: int) -> bool {
    0 < p < ops.len() && (unreadable(ops) || exists|b: int|
        p <= b < ops.len() && #[trigger] jumps_over(ops, b, p))
}

/// The last place up to `p` that no execution comes back over.
pub open spec fn cut_before(ops: Seq<Op>, p: int) -> int
    decreases p,
{
    if p > 0 && crossed(ops, p) {
        cut_before(ops, p - 1)
    } else {
        p
    }
}

/// The first operation from `p` on behind which is a place that no execution comes back over.
pub open spec fn cut_behind(ops: Seq<Op>, p: int) -> int
    decreases ops.len() - p,
{
    if p + 1 < ops.len() && crossed(ops, p + 1) {
        cut_behind(ops, p + 1)
    } else {
        p
    }
}

// ── Lives ──
/// Whether an operation names a register of a group.
pub open spec fn mentions(op: Op, g: Group) -> bool {
    exists|k: int|
        0 <= k < op_vreg_refs(op).len() && g.has((#[trigger] op_vreg_refs(op)[k]).0)
}

/// The first operation from `i` on that names a register of a group, or the end.
pub open spec fn first_mention(ops: Seq<Op>, g: Group, i: int) -> int
    decreases ops.len() - i,
{
    if i >= ops.len() || mentions(ops[i], g) {
        i
    } else {
        first_mention(ops, g, i + 1)
    }
}

/// The last of the first `n` operations that names a register of a group, or -1.
pub open spec fn last_mention(ops: Seq<Op>, g: Group, n: int) -> int
    decreases n,
{
    if n <= 0 || mentions(ops[n - 1], g) {
        n - 1
    } else {
        last_mention(ops, g, n - 1)
    }
}

/// The first and the last operation of a group's life.
pub open spec fn life(ops: Seq<Op>, g: Group) -> (int, int) {
    (
        cut_before(ops, first_mention(ops, g, 0)),
        cut_behind(ops, last_mention(ops, g, ops.len() as int)),
    )
}

/// The lives of groups.
pub open spec fn lives_of(ops: Seq<Op>, groups: Seq<Group>) -> Seq<(int, int)> {
    groups.map_values(|g: Group| life(ops, g))
}

/// Whether two lives have an operation in common.
pub open spec fn meet(a: (int, int), b: (int, int)) -> bool {
    a.0 <= b.1 && b.0 <= a.1
}

proof fn lemma_cut_before(ops: Seq<Op>, p: int)
    requires
        0 <= p,
    ensures
        0 <= cut_before(ops, p) <= p,
        !crossed(ops, cut_before(ops, p)),
    decreases p,
{
    if p > 0 && crossed(ops, p) {
        lemma_cut_before(ops, p - 1);
    }
}

proof fn lemma_cut_behind(ops: Seq<Op>, p: int)
    requires
        p < ops.len(),
    ensures
        p <= cut_behind(ops, p) < ops.len(),
        !crossed(ops, cut_behind(ops, p) + 1),
    decreases ops.len() - p,
{
    if p + 1 < ops.len() && crossed(ops, p + 1) {
        lemma_cut_behind(ops, p + 1);
    }
}

proof fn lemma_first_mention(ops: Seq<Op>, g: Group, i: int)
    requires
        0 <= i <= ops.len(),
    ensures
        i <= first_mention(ops, g, i) <= ops.len(),
        forall|p: int| i <= p < ops.len() && mentions(#[trigger] ops[p], g) ==> first_mention(
            ops,
            g,
            i,
        ) <= p,
    decreases ops.len() - i,
{
    if i < ops.len() && !mentions(ops[i], g) {
        lemma_first_mention(ops, g, i + 1);
    }
}

proof fn lemma_last_mention(ops: Seq<Op>, g: Group, n: int)
    requires
        0 <= n <= ops.len(),
    ensures
        -1 <= last_mention(ops, g, n) < n,
        forall|p: int| 0 <= p < n && mentions(#[trigger] ops[p], g) ==> p <= last_mention(
            ops,
            g,
            n,
        ),
    decreases n,
{
    if n > 0 && !mentions(ops[n - 1], g) {
        lemma_last_mention(ops, g, n - 1);
    }
}

/// Whether an execution can go from one operation to another: to the next one, or by a
/// branch.
pub open spec fn steps_to(ops: Seq<Op>, p: int, q: int) -> bool {
    q == p + 1 || jumps(ops[p], ops[q])
}

/// A group lives wherever it is named, and its life ends for good: an execution that is in
/// it stays in it or goes behind it, and from behind it never comes back.
pub proof fn lives_end_for_good(ops: Seq<Op>, g: Group)
    ensures
        forall|p: int|
            0 <= p < ops.len() && mentions(#[trigger] ops[p], g) ==> life(ops, g).0 <= p <= life(
                ops,
                g,
            ).1,
        !unreadable(ops) ==> forall|p: int, q: int|
            0 <= p < ops.len() && 0 <= q < ops.len() && life(ops, g).0 <= p && #[trigger] steps_to(
                ops,
                p,
                q,
            ) ==> life(ops, g).0 <= q,
        !unreadable(ops) ==> forall|p: int, q: int|
            0 <= p < ops.len() && 0 <= q < ops.len() && life(ops, g).1 < p && #[trigger] steps_to(
                ops,
                p,
                q,
            ) ==> life(ops, g).1 < q,
{
    let n = ops.len() as int;
    lemma_first_mention(ops, g, 0);
    lemma_last_mention(ops, g, n);
    lemma_cut_before(ops, first_mention(ops, g, 0));
    lemma_cut_behind(ops, last_mention(ops, g, n));
    let (lo, hi) = life(ops, g);
    if !unreadable(ops) {
        assert forall|p: int, q: int|
            0 <= p < n && 0 <= q < n && lo <= p && #[trigger] steps_to(ops, p, q) implies lo
            <= q by {
            if q < lo {
                assert(jumps(ops[p], ops[q]));
                assert(jumps_over(ops, p, lo));
                assert(crossed(ops, lo));
            }
        }
        assert forall|p: int, q: int|
            0 <= p < n && 0 <= q < n && hi < p && #[trigger] steps_to(ops, p, q) implies hi < q by {
            if q <= hi {
                assert(jumps(ops[p], ops[q]));
                assert(jumps_over(ops, p, hi + 1));
                assert(crossed(ops, hi + 1));
            }
        }
    }
}

// ── First fit ──
/// Whether a group can start at `b`: the groups placed before it that live at the same time
/// are elsewhere.
pub open spec fn free_at(
    groups: Seq<Group>,
    lives: Seq<(int, int)>,
    bases: Seq<nat>,
    i: int,
    b: nat,
) -> bool {
    forall|j: int|
        0 <= j < bases.len() && meet(lives[j], lives[i]) ==> b + groups[i].count
            <= #[trigger] bases[j] || bases[j] + groups[j].count <= b
}

/// The end of the placed groups.
pub open spec fn top_of(groups: Seq<Group>, bases: Seq<nat>, start: nat) -> nat
    decreases bases.len(),
{
    if bases.len() == 0 {
        start
    } else {
        let n = bases.len() - 1;
        let rest = top_of(groups, bases.drop_last(), start);
        let end = bases.last() + groups[n].count as nat;
        if end > rest {
            end
        } else {
            rest
        }
    }
}

/// The first place from `b` on, in steps of the alignment, where a group can start.
pub open spec fn fit_from(
    groups: Seq<Group>,
    lives: Seq<(int, int)>,
    bases: Seq<nat>,
    i: int,
    b: nat,
) -> nat
    decreases
            if b < top_of(groups, bases, 0) {
                top_of(groups, bases, 0) - b
            } else {
                0
            },
{
    if b >= top_of(groups, bases, 0) || free_at(groups, lives, bases, i, b) || groups[i].align
        == 0 {
        b
    } else {
        fit_from(groups, lives, bases, i, b + groups[i].align as nat)
    }
}

/// The places of the first `n` groups: each takes the first aligned place where it can
/// start.
pub open spec fn bases_of(groups: Seq<Group>, lives: Seq<(int, int)>, n: nat, start: nat) -> Seq<
    nat,
>
    decreases n,
{
    if n == 0 {
        Seq::empty()
    } else {
        let before = bases_of(groups, lives, (n - 1) as nat, start);
        before.push(
            fit_from(
                groups,
                lives,
                before,
                n - 1,
                align_up(start, groups[n - 1].align as nat),
            ),
        )
    }
}

/// The end of the groups.
pub open spec fn shared_end(groups: Seq<Group>, lives: Seq<(int, int)>, start: nat) -> nat {
    top_of(groups, bases_of(groups, lives, groups.len(), start), start)
}

/// The first free physical register after placing the groups and the leftover registers.
pub open spec fn shared_space(
    groups: Seq<Group>,
    lives: Seq<(int, int)>,
    refs: Set<u32>,
    start: nat,
) -> nat {
    shared_end(groups, lives, start) + leftover(groups, refs).len()
}

/// Whether every group starts at the first place where it can, and the leftover registers
/// follow by number behind all groups.
pub open spec fn shared_placement(
    map: Map<u32, u8>,
    end: nat,
    groups: Seq<Group>,
    lives: Seq<(int, int)>,
    refs: Set<u32>,
    start: nat,
) -> bool {
    &&& end == shared_space(groups, lives, refs, start)
    &&& forall|id: u32|
        #[trigger] map.contains_key(id) <==> in_groups(groups, id) || refs.contains(id)
    &&& forall|i: int, id: u32|
        0 <= i < groups.len() && #[trigger] groups[i].has(id) ==> map[id] == bases_of(
            groups,
            lives,
            groups.len(),
            start,
        )[i] + (id - groups[i].first)
    &&& forall|id: u32| #[trigger]
        leftover(groups, refs).contains(id) ==> map[id] == shared_end(groups, lives, start) + rank(
            leftover(groups, refs),
            id,
        )
}

proof fn lemma_bases_len(groups: Seq<Group>, lives: Seq<(int, int)>, n: nat, start: nat)
    ensures
        bases_of(groups, lives, n, start).len() == n,
    decreases n,
{
    if n > 0 {
        lemma_bases_len(groups, lives, (n - 1) as nat, start);
    }
}

proof fn lemma_bases_prefix(groups: Seq<Group>, lives: Seq<(int, int)>, m: nat, n: nat, start: nat)
    requires
        m <= n,
    ensures
        bases_of(groups, lives, n, start).take(m as int) == bases_of(groups, lives, m, start),
    decreases n,
{
    lemma_bases_len(groups, lives, n, start);
    lemma_bases_len(groups, lives, m, start);
    if m < n {
        lemma_bases_prefix(groups, lives, m, (n - 1) as nat, start);
        lemma_bases_len(groups, lives, (n - 1) as nat, start);
        assert(bases_of(groups, lives, n, start).take(m as int) =~= bases_of(
            groups,
            lives,
            (n - 1) as nat,
            start,
        ).take(m as int));
    } else {
        assert(bases_of(groups, lives, n, start).take(m as int) =~= bases_of(
            groups,
            lives,
            m,
            start,
        ));
    }
}

proof fn lemma_top(groups: Seq<Group>, bases: Seq<nat>, start: nat)
    ensures
        top_of(groups, bases, start) >= start,
        top_of(groups, bases, 0) <= top_of(groups, bases, start),
        forall|j: int|
            0 <= j < bases.len() ==> #[trigger] bases[j] + groups[j].count <= top_of(
                groups,
                bases,
                0,
            ),
    decreases bases.len(),
{
    if bases.len() > 0 {
        lemma_top(groups, bases.drop_last(), start);
        assert forall|j: int| 0 <= j < bases.len() implies #[trigger] bases[j] + groups[j].count
            <= top_of(groups, bases, 0) by {
            if j < bases.len() - 1 {
                assert(bases.drop_last()[j] == bases[j]);
            }
        }
    }
}

/// What is found is aligned as the start, not in front of it, and free.
proof fn lemma_fit(
    groups: Seq<Group>,
    lives: Seq<(int, int)>,
    bases: Seq<nat>,
    i: int,
    b: nat,
)
    requires
        0 <= i < groups.len(),
        groups[i].valid(),
        b as int % groups[i].align as int == 0,
    ensures
        fit_from(groups, lives, bases, i, b) >= b,
        fit_from(groups, lives, bases, i, b) as int % groups[i].align as int == 0,
        free_at(groups, lives, bases, i, fit_from(groups, lives, bases, i, b)),
    decreases
            if b < top_of(groups, bases, 0) {
                top_of(groups, bases, 0) - b
            } else {
                0
            },
{
    lemma_top(groups, bases, 0);
    if b >= top_of(groups, bases, 0) {
        assert(free_at(groups, lives, bases, i, b));
    } else if !free_at(groups, lives, bases, i, b) {
        let a = groups[i].align as int;
        assert((b + a) % a == 0) by (nonlinear_arith)
            requires
                b as int % a == 0,
                a == 1 || a == 2 || a == 4 || a == 8,
        ;
        lemma_fit(groups, lives, bases, i, b + groups[i].align as nat);
    }
}

proof fn lemma_align_up(n: nat, a: nat)
    requires
        a == 1 || a == 2 || a == 4 || a == 8,
    ensures
        n <= align_up(n, a) < n + a,
        align_up(n, a) % a == 0,
{
    assert(align_up(n, a) % a == 0) by (nonlinear_arith)
        requires
            align_up(n, a) == n - n % a + a || (align_up(n, a) == n && n % a == 0),
            a == 1 || a == 2 || a == 4 || a == 8,
    ;
}

/// What holds of the places of groups: they are aligned, not in front of the start, and two
/// groups that live at the same time are apart.
proof fn lemma_bases(groups: Seq<Group>, lives: Seq<(int, int)>, n: nat, start: nat)
    requires
        groups_valid(groups),
        n <= groups.len(),
    ensures
        bases_of(groups, lives, n, start).len() == n,
        forall|i: int|
            0 <= i < n ==> start <= #[trigger] bases_of(groups, lives, n, start)[i] && bases_of(
                groups,
                lives,
                n,
                start,
            )[i] as int % groups[i].align as int == 0,
        forall|i: int, j: int|
            0 <= j < i < n && meet(lives[j], lives[i]) ==> #[trigger] bases_of(
                groups,
                lives,
                n,
                start,
            )[i] + groups[i].count <= #[trigger] bases_of(groups, lives, n, start)[j] || bases_of(
                groups,
                lives,
                n,
                start,
            )[j] + groups[j].count <= bases_of(groups, lives, n, start)[i],
    decreases n,
{
    if n > 0 {
        let before = bases_of(groups, lives, (n - 1) as nat, start);
        lemma_bases(groups, lives, (n - 1) as nat, start);
        let a = groups[n - 1].align as nat;
        assert(groups[n - 1].valid());
        lemma_align_up(start, a);
        lemma_fit(groups, lives, before, n - 1, align_up(start, a));
        let all = bases_of(groups, lives, n, start);
        assert forall|i: int| 0 <= i < n implies start <= #[trigger] all[i] && all[i] as int
            % groups[i].align as int == 0 by {
            if i < n - 1 {
                assert(all[i] == before[i]);
            }
        }
        assert forall|i: int, j: int| 0 <= j < i < n && meet(lives[j], lives[i]) implies
            #[trigger] all[i] + groups[i].count <= #[trigger] all[j] || all[j] + groups[j].count
            <= all[i] by {
            assert(all[j] == before[j]);
            if i < n - 1 {
                assert(all[i] == before[i]);
            }
        }
    }
}

/// No place in front of the end of what is placed is passed over.
proof fn lemma_fit_bound(
    groups: Seq<Group>,
    lives: Seq<(int, int)>,
    bases: Seq<nat>,
    i: int,
    b: nat,
    t: nat,
)
    requires
        0 <= i < groups.len(),
        groups[i].valid(),
        b as int % groups[i].align as int == 0,
        t as int % groups[i].align as int == 0,
        b <= t,
        top_of(groups, bases, 0) <= t,
    ensures
        fit_from(groups, lives, bases, i, b) <= t,
    decreases
            if b < top_of(groups, bases, 0) {
                top_of(groups, bases, 0) - b
            } else {
                0
            },
{
    if b < top_of(groups, bases, 0) && !free_at(groups, lives, bases, i, b) {
        let a = groups[i].align as int;
        assert((b + a) % a == 0 && b + a <= t) by (nonlinear_arith)
            requires
                b as int % a == 0,
                t as int % a == 0,
                b < t,
                a == 1 || a == 2 || a == 4 || a == 8,
        ;
        lemma_fit_bound(groups, lives, bases, i, b + groups[i].align as nat, t);
    }
}

/// Sharing takes no more registers than giving each group a place of its own.
pub proof fn sharing_takes_no_more(
    groups: Seq<Group>,
    lives: Seq<(int, int)>,
    n: nat,
    start: nat,
)
    requires
        groups_valid(groups),
        n <= groups.len(),
    ensures
        top_of(groups, bases_of(groups, lives, n, start), start) <= groups_end(
            groups.take(n as int),
            start,
        ),
        start <= groups_end(groups.take(n as int), start),
    decreases n,
{
    if n > 0 {
        let before = bases_of(groups, lives, (n - 1) as nat, start);
        sharing_takes_no_more(groups, lives, (n - 1) as nat, start);
        lemma_bases_len(groups, lives, (n - 1) as nat, start);
        lemma_top(groups, before, start);
        assert(groups[n - 1].valid());
        assert(groups.take(n as int).drop_last() =~= groups.take(n - 1));
        let a = groups[n - 1].align as nat;
        let end = groups_end(groups.take(n - 1), start);
        let b = align_up(start, a);
        let t = align_up(end, a);
        lemma_align_up(start, a);
        lemma_align_up(end, a);
        assert(b <= t) by (nonlinear_arith)
            requires
                b % a == 0,
                t % a == 0,
                b < start + a,
                start <= t,
                a == 1 || a == 2 || a == 4 || a == 8,
        ;
        lemma_fit_bound(groups, lives, before, n - 1, b, t);
        let all = bases_of(groups, lives, n, start);
        assert(all.drop_last() =~= before);
    }
}

/// A kernel that has enough vector registers with a place for each has enough when it
/// shares them.
pub proof fn kernels_that_fit_apart_fit_shared(groups: Seq<Group>, ops: Seq<Op>, start: nat)
    requires
        groups_valid(groups),
    ensures
        shared_space(groups, lives_of(ops, groups), named_vregs(ops), start) <= space_needed(
            groups,
            named_vregs(ops),
            start,
        ),
{
    sharing_takes_no_more(groups, lives_of(ops, groups), groups.len(), start);
    assert(groups.take(groups.len() as int) =~= groups);
}

/// Two registers share a physical one only if they belong to groups whose lives do not meet,
/// and none shares `v0`; every group has consecutive, aligned registers.
pub proof fn sharing_is_apart_in_time(
    map: Map<u32, u8>,
    end: nat,
    groups: Seq<Group>,
    lives: Seq<(int, int)>,
    refs: Set<u32>,
    start: nat,
    x: u32,
    y: u32,
)
    requires
        groups_valid(groups),
        refs.finite(),
        shared_placement(map, end, groups, lives, refs, start),
        map.contains_key(x),
        map.contains_key(y),
        x != y,
        map[x] == map[y],
    ensures
        start <= map[x] < end,
        exists|i: int, j: int|
            0 <= i < groups.len() && 0 <= j < groups.len() && #[trigger] groups[i].has(x)
                && #[trigger] groups[j].has(y) && !meet(lives[i], lives[j]),
{
    let rest = leftover(groups, refs);
    lemma_bases(groups, lives, groups.len(), start);
    lemma_top(groups, bases_of(groups, lives, groups.len(), start), start);
    if in_groups(groups, x) && in_groups(groups, y) {
        let i = choose|i: int| 0 <= i < groups.len() && #[trigger] groups[i].has(x);
        let j = choose|j: int| 0 <= j < groups.len() && #[trigger] groups[j].has(y);
        assert(groups[i].has(x) && groups[j].has(y));
        if i == j {
            assert(map[x] - map[y] == x - y);
        }
        if i < j {
            assert(meet(lives[i], lives[j]) == meet(lives[j], lives[i]));
        }
        assert(!meet(lives[i], lives[j]));
    } else if !in_groups(groups, x) && !in_groups(groups, y) {
        assert(rest.contains(x) && rest.contains(y));
        crate::regalloc::lemma_rank_grows(rest, x, y);
        crate::regalloc::lemma_rank_grows(rest, y, x);
    } else if in_groups(groups, x) {
        let i = choose|i: int| 0 <= i < groups.len() && #[trigger] groups[i].has(x);
        assert(groups[i].has(x));
        assert(rest.contains(y));
    } else {
        let j = choose|j: int| 0 <= j < groups.len() && #[trigger] groups[j].has(y);
        assert(groups[j].has(y));
        assert(rest.contains(x));
    }
}

// ── Finding lives ──
/// Whether an operation names a register of a group.
pub(crate) fn check_mentions(op: &Op, g: &Group) -> (r: bool)
    requires
        g.valid(),
    ensures
        r == mentions(*op, *g),
{
    let refs = op.vreg_refs();
    let mut k: usize = 0;
    while k < refs.len()
        invariant
            k <= refs.len(),
            g.valid(),
            refs@ == op_vreg_refs(*op),
            forall|j: int| 0 <= j < k ==> !g.has((#[trigger] refs@[j]).0),
        decreases refs.len() - k,
    {
        let id: u32 = refs[k].0;
        if g.first <= id && id < g.first + g.count {
            assert(g.has(refs@[k as int].0));
            return true;
        }
        k = k + 1;
    }
    false
}

/// Whether a branch goes to a label.
pub(crate) fn check_jumps(op: &Op, label: &Op) -> (r: bool)
    ensures
        r == jumps(*op, *label),
{
    match label {
        OpOf::Label(l) => match op {
            OpOf::Branch(t)
            | OpOf::BranchScc0(t)
            | OpOf::BranchScc1(t)
            | OpOf::BranchVccz(t) => *t == *l,
            _ => false,
        },
        _ => false,
    }
}

/// For every place, whether an execution can come back over it.
fn find_crossed(ops: &[Op]) -> (r: Vec<bool>)
    ensures
        r@.len() == ops@.len(),
        forall|p: int| 0 <= p < ops@.len() ==> #[trigger] r@[p] == crossed(ops@, p),
{
    let n: usize = ops.len();
    let mut raw: bool = false;
    let mut r: Vec<bool> = Vec::new();
    let mut k: usize = 0;
    while k < n
        invariant
            k <= n == ops@.len(),
            r@.len() == k,
            forall|p: int| 0 <= p < k ==> !#[trigger] r@[p],
            raw == exists|j: int| 0 <= j < k && #[trigger] ops@[j] is RawAsm,
        decreases n - k,
    {
        if matches!(&ops[k], OpOf::RawAsm(_)) {
            raw = true;
        }
        r.push(false);
        k = k + 1;
    }
    assert(raw == unreadable(ops@));
    let mut b: usize = 0;
    while b < n
        invariant
            b <= n == ops@.len(),
            r@.len() == n,
            forall|p: int|
                0 <= p < n ==> (#[trigger] r@[p] <==> 0 < p && exists|c: int|
                    p <= c < b && #[trigger] jumps_over(ops@, c, p)),
        decreases n - b,
    {
        let ghost before = r@;
        let mut l: usize = 0;
        let mut found: bool = false;
        while l < b && !found
            invariant
                l <= b < n == ops@.len(),
                r@ == before,
                r@.len() == n,
                found ==> jumps(ops@[b as int], ops@[l as int]) && l < b,
                forall|x: int| 0 <= x < l ==> !jumps(ops@[b as int], #[trigger] ops@[x]),
            decreases b - l + if found { 0int } else { 1int },
        {
            if check_jumps(&ops[b], &ops[l]) {
                found = true;
            } else {
                l = l + 1;
            }
        }
        if found {
            let mut p: usize = l + 1;
            while p <= b
                invariant
                    l < p <= b + 1 <= n,
                    r@.len() == n,
                    forall|q: int|
                        0 <= q < n ==> #[trigger] r@[q] == (before[q] || l < q < p),
                decreases b + 1 - p,
            {
                r.set(p, true);
                p = p + 1;
            }
        }
        proof {
            assert forall|p: int| 0 <= p < n implies (#[trigger] r@[p] <==> 0 < p && exists|c: int|
                p <= c < b + 1 && #[trigger] jumps_over(ops@, c, p)) by {
                assert(before[p] <==> 0 < p && exists|c: int|
                    p <= c < b && #[trigger] jumps_over(ops@, c, p));
                if found && l < p <= b {
                    assert(jumps_over(ops@, b as int, p));
                }
                if p <= b && jumps_over(ops@, b as int, p) && 0 < p {
                    let x = choose|x: int|
                        0 <= x < p && jumps(ops@[b as int], #[trigger] ops@[x]);
                    assert(found && l <= x);
                }
                if exists|c: int| p <= c < b && #[trigger] jumps_over(ops@, c, p) {
                    let c = choose|c: int| p <= c < b && #[trigger] jumps_over(ops@, c, p);
                    assert(p <= c < b + 1 && jumps_over(ops@, c, p));
                }
                if 0 < p && exists|c: int| p <= c < b + 1 && #[trigger] jumps_over(ops@, c, p) {
                    let c = choose|c: int| p <= c < b + 1 && #[trigger] jumps_over(ops@, c, p);
                    if c < b {
                        assert(before[p]);
                    }
                }
            }
        }
        b = b + 1;
    }
    if raw {
        let mut p: usize = 1;
        while p < n
            invariant
                1 <= p,
                n == 0 || p <= n,
                r@.len() == n == ops@.len(),
                unreadable(ops@),
                forall|q: int| 1 <= q < p && q < n ==> #[trigger] r@[q],
                n > 0 ==> !r@[0],
            decreases n - p,
        {
            r.set(p, true);
            p = p + 1;
        }
    }
    r
}

/// The life of a group.
fn find_life(ops: &[Op], crossings: &Vec<bool>, g: &Group) -> (r: (usize, usize, bool))
    requires
        g.valid(),
        crossings@.len() == ops@.len(),
        forall|p: int| 0 <= p < ops@.len() ==> #[trigger] crossings@[p] == crossed(ops@, p),
    ensures
        r.2 ==> life(ops@, *g) == (r.0 as int, r.1 as int),
        !r.2 ==> life(ops@, *g).0 > life(ops@, *g).1 && life(ops@, *g).0 == ops@.len() && life(
            ops@,
            *g,
        ).1 == -1,
        r.2 ==> r.1 < ops@.len(),
{
    let n: usize = ops.len();
    let mut first: usize = 0;
    while first < n && !check_mentions(&ops[first], g)
        invariant
            first <= n == ops@.len(),
            g.valid(),
            first_mention(ops@, *g, 0) == first_mention(ops@, *g, first as int),
            forall|p: int| 0 <= p < first ==> !mentions(#[trigger] ops@[p], *g),
        ensures
            first <= n,
            first == first_mention(ops@, *g, 0),
            first < n ==> mentions(ops@[first as int], *g),
            forall|p: int| 0 <= p < first ==> !mentions(#[trigger] ops@[p], *g),
        decreases n - first,
    {
        first = first + 1;
    }
    proof {
        lemma_last_mention(ops@, *g, n as int);
    }
    if first == n {
        proof {
            lemma_no_mention(ops@, *g, n as int);
        }
        return (0, 0, false);
    }
    let mut last: usize = n - 1;
    while !check_mentions(&ops[last], g)
        invariant
            first <= last < n == ops@.len(),
            g.valid(),
            mentions(ops@[first as int], *g),
            last_mention(ops@, *g, n as int) == last_mention(ops@, *g, last + 1),
        ensures
            first <= last < n,
            last == last_mention(ops@, *g, n as int),
        decreases last,
    {
        last = last - 1;
    }
    let mut lo: usize = first;
    while lo > 0 && crossings[lo]
        invariant
            lo < n == ops@.len(),
            crossings@.len() == n,
            forall|p: int| 0 <= p < n ==> #[trigger] crossings@[p] == crossed(ops@, p),
            cut_before(ops@, first as int) == cut_before(ops@, lo as int),
        ensures
            lo == cut_before(ops@, first as int),
        decreases lo,
    {
        lo = lo - 1;
    }
    let mut hi: usize = last;
    while hi + 1 < n && crossings[hi + 1]
        invariant
            hi < n == ops@.len(),
            crossings@.len() == n,
            forall|p: int| 0 <= p < n ==> #[trigger] crossings@[p] == crossed(ops@, p),
            cut_behind(ops@, last as int) == cut_behind(ops@, hi as int),
        ensures
            hi < n,
            hi == cut_behind(ops@, last as int),
        decreases n - hi,
    {
        hi = hi + 1;
    }
    (lo, hi, true)
}

proof fn lemma_no_mention(ops: Seq<Op>, g: Group, n: int)
    requires
        0 <= n <= ops.len(),
        forall|p: int| 0 <= p < n ==> !mentions(#[trigger] ops[p], g),
    ensures
        last_mention(ops, g, n) == -1,
    decreases n,
{
    if n > 0 {
        lemma_no_mention(ops, g, n - 1);
    }
}

/// The lives of groups.
pub(crate) fn find_lives(ops: &[Op], groups: &Vec<Group>) -> (r: Vec<(usize, usize, bool)>)
    requires
        groups_valid(groups@),
    ensures
        r@.len() == groups@.len(),
        lives_found(r@, lives_of(ops@, groups@), ops@.len()),
{
    let crossings = find_crossed(ops);
    let mut r: Vec<(usize, usize, bool)> = Vec::new();
    let mut i: usize = 0;
    while i < groups.len()
        invariant
            i <= groups.len(),
            groups_valid(groups@),
            crossings@.len() == ops@.len(),
            forall|p: int| 0 <= p < ops@.len() ==> #[trigger] crossings@[p] == crossed(ops@, p),
            r@.len() == i,
            lives_found(r@, lives_of(ops@, groups@).take(i as int), ops@.len()),
        decreases groups.len() - i,
    {
        assert(groups@[i as int].valid());
        let life = find_life(ops, &crossings, &groups[i]);
        r.push(life);
        i = i + 1;
        proof {
            let lives = lives_of(ops@, groups@).take(i as int);
            let was = lives_of(ops@, groups@).take(i - 1);
            assert forall|k: int| 0 <= k < i implies life_found(
                #[trigger] r@[k],
                lives[k],
                ops@.len(),
            ) by {
                if k < i - 1 {
                    assert(life_found(r@.drop_last()[k], was[k], ops@.len()));
                }
            }
        }
    }
    assert(lives_of(ops@, groups@).take(i as int) =~= lives_of(ops@, groups@));
    r
}

/// Whether a life was found: its two ends, or that there is none.
pub open spec fn life_found(found: (usize, usize, bool), life: (int, int), n: nat) -> bool {
    if found.2 {
        life == (found.0 as int, found.1 as int) && found.1 < n
    } else {
        life == (n as int, -1int)
    }
}

/// Whether lives were found.
pub open spec fn lives_found(
    found: Seq<(usize, usize, bool)>,
    lives: Seq<(int, int)>,
    n: nat,
) -> bool {
    &&& found.len() == lives.len()
    &&& forall|k: int|
        0 <= k < found.len() ==> life_found(#[trigger] found[k], lives[k], n)
}

/// Whether two lives have an operation in common.
fn check_meet(a: &(usize, usize, bool), b: &(usize, usize, bool)) -> (r: bool)
    ensures
        forall|x: (int, int), y: (int, int), n: nat| #[trigger]
            life_found(*a, x, n) && #[trigger] life_found(*b, y, n) ==> r == meet(x, y),
{
    a.2 && b.2 && a.0 <= b.1 && b.0 <= a.1
}

// ── Placing ──
/// Whether a group can start at `b`.
fn check_free(
    groups: &Vec<Group>,
    found: &Vec<(usize, usize, bool)>,
    bases: &Vec<u32>,
    i: usize,
    b: u32,
    Ghost(lives): Ghost<Seq<(int, int)>>,
    Ghost(n): Ghost<nat>,
) -> (r: bool)
    requires
        i < groups@.len(),
        bases@.len() <= i,
        lives_found(found@, lives, n),
        lives.len() == groups@.len(),
        b + groups@[i as int].count <= 256,
        forall|j: int|
            0 <= j < bases@.len() ==> #[trigger] bases@[j] + groups@[j].count <= 256,
    ensures
        r == free_at(groups@, lives, nats(bases@), i as int, b as nat),
{
    let count: u32 = groups[i].count;
    let mut j: usize = 0;
    while j < bases.len()
        invariant
            j <= bases.len(),
            i < groups@.len(),
            bases@.len() <= i,
            count == groups@[i as int].count,
            lives_found(found@, lives, n),
            lives.len() == groups@.len(),
            b + count <= 256,
            forall|x: int|
                0 <= x < bases@.len() ==> #[trigger] bases@[x] + groups@[x].count <= 256,
            forall|x: int|
                0 <= x < j && meet(lives[x], lives[i as int]) ==> b + count <= #[trigger] nats(
                    bases@,
                )[x] || nats(bases@)[x] + groups@[x].count <= b,
        decreases bases.len() - j,
    {
        assert(life_found(found@[j as int], lives[j as int], n));
        assert(life_found(found@[i as int], lives[i as int], n));
        assert(bases@[j as int] + groups@[j as int].count <= 256);
        assert(nats(bases@)[j as int] == bases@[j as int]);
        if check_meet(&found[j], &found[i]) {
            if !(b + count <= bases[j] || bases[j] + groups[j].count <= b) {
                return false;
            }
        }
        j = j + 1;
    }
    true
}

/// Numbers as specifications see them.
pub open spec fn nats(v: Seq<u32>) -> Seq<nat> {
    v.map_values(|x: u32| x as nat)
}

/// The places of the groups and their end, unless the physical registers do not suffice.
fn find_bases(
    groups: &Vec<Group>,
    found: &Vec<(usize, usize, bool)>,
    start: u32,
    limit: u32,
    Ghost(lives): Ghost<Seq<(int, int)>>,
    Ghost(n): Ghost<nat>,
) -> (r: Option<(Vec<u32>, u32)>)
    requires
        groups_valid(groups@),
        lives_found(found@, lives, n),
        lives.len() == groups@.len(),
        start <= limit <= 256,
    ensures
        match r {
            Some((bases, end)) => {
                &&& nats(bases@) == bases_of(groups@, lives, groups@.len(), start as nat)
                &&& end == shared_end(groups@, lives, start as nat)
                &&& start <= end <= limit
            },
            None => shared_end(groups@, lives, start as nat) > limit,
        },
{
    let mut bases: Vec<u32> = Vec::new();
    let mut end: u32 = start;
    let mut i: usize = 0;
    assert(nats(bases@) =~= bases_of(groups@, lives, 0, start as nat));
    while i < groups.len()
        invariant
            i <= groups.len(),
            groups_valid(groups@),
            lives_found(found@, lives, n),
            lives.len() == groups@.len(),
            start <= limit <= 256,
            bases@.len() == i,
            nats(bases@) == bases_of(groups@, lives, i as nat, start as nat),
            end == top_of(groups@, nats(bases@), start as nat),
            start <= end <= limit,
            forall|j: int|
                0 <= j < bases@.len() ==> #[trigger] bases@[j] + groups@[j].count <= 256,
        decreases groups.len() - i,
    {
        let g = groups[i];
        assert(groups@[i as int].valid());
        let ghost before = nats(bases@);
        let ghost first = align_up(start as nat, g.align as nat);
        proof {
            lemma_align_up(start as nat, g.align as nat);
            lemma_top(groups@, before, start as nat);
        }
        let rem: u32 = start % g.align;
        assert(rem <= start) by (nonlinear_arith)
            requires
                rem == start % g.align,
                g.align > 0,
        ;
        let mut b: u32 = if rem == 0 {
            start
        } else {
            start - rem + g.align
        };
        let mut stop: bool = false;
        while !stop
            invariant
                i < groups.len(),
                g == groups@[i as int],
                g.valid(),
                groups_valid(groups@),
                lives_found(found@, lives, n),
                lives.len() == groups@.len(),
                start <= limit <= 256,
                bases@.len() == i,
                before == nats(bases@),
                before == bases_of(groups@, lives, i as nat, start as nat),
                first == align_up(start as nat, g.align as nat),
                forall|j: int|
                    0 <= j < bases@.len() ==> #[trigger] bases@[j] + groups@[j].count <= 256,
                top_of(groups@, before, 0) <= 256,
                b % g.align == 0,
                b <= 272,
                fit_from(groups@, lives, before, i as int, first) == fit_from(
                    groups@,
                    lives,
                    before,
                    i as int,
                    b as nat,
                ),
                stop ==> free_at(groups@, lives, before, i as int, b as nat),
                stop ==> b + g.count <= limit,
            decreases 300 - b + if stop { 0int } else { 1int },
        {
            if b > limit || g.count > limit - b {
                proof {
                    lemma_fit(groups@, lives, before, i as int, b as nat);
                    lemma_bases_len(groups@, lives, i as nat, start as nat);
                    let all = bases_of(groups@, lives, (i + 1) as nat, start as nat);
                    assert(all[i as int] >= b);
                    lemma_bases_prefix(
                        groups@,
                        lives,
                        (i + 1) as nat,
                        groups@.len(),
                        start as nat,
                    );
                    lemma_bases_len(groups@, lives, groups@.len(), start as nat);
                    let full = bases_of(groups@, lives, groups@.len(), start as nat);
                    assert(full.take(i + 1)[i as int] == full[i as int]);
                    lemma_top(groups@, full, start as nat);
                }
                return None;
            }
            if check_free(groups, found, &bases, i, b, Ghost(lives), Ghost(n)) {
                stop = true;
            } else {
                proof {
                    lemma_top(groups@, before, 0);
                    if b >= top_of(groups@, before, 0) {
                        assert(free_at(groups@, lives, before, i as int, b as nat));
                    }
                    assert((b + g.align) % g.align as int == 0) by (nonlinear_arith)
                        requires
                            b % g.align == 0,
                            g.align == 1 || g.align == 2 || g.align == 4 || g.align == 8,
                    ;
                }
                b = b + g.align;
            }
        }
        if b + g.count > end {
            end = b + g.count;
        }
        bases.push(b);
        i = i + 1;
        proof {
            let all = bases_of(groups@, lives, i as nat, start as nat);
            assert(nats(bases@) =~= before.push(b as nat));
            assert(all == before.push(b as nat));
            assert(nats(bases@).drop_last() =~= before);
        }
    }
    Some((bases, end))
}

/// Writes the places of groups down, register by register.
fn map_groups(groups: &Vec<Group>, bases: &Vec<u32>, limit: u32) -> (map: HashMap<u32, u8>)
    requires
        groups_valid(groups@),
        bases@.len() == groups@.len(),
        limit <= 256,
        forall|i: int|
            0 <= i < groups@.len() ==> #[trigger] bases@[i] + groups@[i].count <= limit,
    ensures
        forall|id: u32| #[trigger] map@.contains_key(id) <==> in_groups(groups@, id),
        forall|i: int, id: u32|
            0 <= i < groups@.len() && #[trigger] groups@[i].has(id) ==> map@[id] == bases@[i] + (id
                - groups@[i].first),
{
    let mut map: HashMap<u32, u8> = HashMap::new();
    let mut i: usize = 0;
    while i < groups.len()
        invariant
            i <= groups.len(),
            groups_valid(groups@),
            bases@.len() == groups@.len(),
            limit <= 256,
            forall|j: int|
                0 <= j < groups@.len() ==> #[trigger] bases@[j] + groups@[j].count <= limit,
            forall|j: int, id: u32|
                0 <= j < i && #[trigger] groups@[j].has(id) ==> map@[id] == bases@[j] + (id
                    - groups@[j].first),
            forall|id: u32| #[trigger]
                map@.contains_key(id) <==> in_groups(groups@.take(i as int), id),
        decreases groups.len() - i,
    {
        let g = groups[i];
        let base: u32 = bases[i];
        let ghost before = map@;
        assert(groups@[i as int].valid());
        assert(bases@[i as int] + groups@[i as int].count <= limit);
        assert forall|id: u32| #[trigger] g.has(id) implies !before.contains_key(id) by {
            if before.contains_key(id) {
                let j = choose|j: int|
                    0 <= j < i && #[trigger] groups@.take(i as int)[j].has(id);
                assert(groups@[j].has(id));
                assert(groups@[i as int].has(id));
            }
        }
        let mut k: u32 = 0;
        while k < g.count
            invariant
                k <= g.count,
                g.valid(),
                base + g.count <= limit <= 256,
                forall|id: u32| #[trigger] g.has(id) ==> !before.contains_key(id),
                forall|id: u32| #[trigger]
                    map@.contains_key(id) <==> before.contains_key(id) || (g.first <= id < g.first
                        + k),
                forall|id: u32| before.contains_key(id) ==> #[trigger] map@[id] == before[id],
                forall|id: u32|
                    g.first <= id < g.first + k ==> #[trigger] map@[id] == base + (id - g.first),
            decreases g.count - k,
        {
            assert(g.has((g.first + k) as u32));
            map.insert(g.first + k, (base + k) as u8);
            k = k + 1;
        }
        proof {
            assert forall|j: int, id: u32|
                0 <= j < i + 1 && #[trigger] groups@[j].has(id) implies map@[id] == bases@[j] + (id
                - groups@[j].first) by {
                if j < i {
                    assert(groups@.take(i as int)[j].has(id));
                    assert(before.contains_key(id));
                } else {
                    assert(g.has(id));
                }
            }
            assert forall|id: u32| #[trigger] map@.contains_key(id) <==> in_groups(
                groups@.take(i + 1),
                id,
            ) by {
                if map@.contains_key(id) {
                    if before.contains_key(id) {
                        let j = choose|j: int|
                            0 <= j < i && #[trigger] groups@.take(i as int)[j].has(id);
                        assert(groups@.take(i + 1)[j].has(id));
                    } else {
                        assert(groups@.take(i + 1)[i as int].has(id));
                    }
                }
                if in_groups(groups@.take(i + 1), id) {
                    let j = choose|j: int|
                        0 <= j < i + 1 && #[trigger] groups@.take(i + 1)[j].has(id);
                    if j < i {
                        assert(groups@.take(i as int)[j].has(id));
                    }
                }
            }
        }
        i = i + 1;
    }
    assert(groups@.take(i as int) =~= groups@);
    map
}

/// Places groups so that those share registers whose lives do not meet, and then the
/// leftover registers. There is no placement when the physical registers do not suffice.
pub fn place_sharing(
    groups: &Vec<Group>,
    refs: &Vec<u32>,
    ops: &[Op],
    start: u32,
    limit: u32,
) -> (r: Option<(HashMap<u32, u8>, u32)>)
    requires
        groups_valid(groups@),
        start <= limit <= 256,
    ensures
        match r {
            Some((map, end)) => shared_placement(
                map@,
                end as nat,
                groups@,
                lives_of(ops@, groups@),
                refs@.to_set(),
                start as nat,
            ) && end <= limit,
            None => shared_space(
                groups@,
                lives_of(ops@, groups@),
                refs@.to_set(),
                start as nat,
            ) > limit,
        },
{
    let ghost lives = lives_of(ops@, groups@);
    let found = find_lives(ops, groups);
    match find_bases(groups, &found, start, limit, Ghost(lives), Ghost(ops@.len())) {
        None => None,
        Some((bases, end)) => {
            proof {
                let all = bases_of(groups@, lives, groups@.len(), start as nat);
                lemma_top(groups@, all, start as nat);
                lemma_bases_len(groups@, lives, groups@.len(), start as nat);
                assert forall|i: int| 0 <= i < groups@.len() implies #[trigger] bases@[i]
                    + groups@[i].count <= limit by {
                    assert(all[i] == nats(bases@)[i]);
                    assert(all[i] + groups@[i].count <= top_of(groups@, all, 0));
                }
            }
            let map = map_groups(groups, &bases, limit);
            let ghost declared = map@;
            let ghost rest = leftover(groups@, refs@.to_set());
            assert(rest =~= refs@.to_set().filter(|id: u32| !declared.contains_key(id)));
            match place_rest(refs, map, end, limit) {
                None => None,
                Some((m, e)) => {
                    proof {
                        let all = bases_of(groups@, lives, groups@.len(), start as nat);
                        assert forall|i: int, id: u32|
                            0 <= i < groups@.len() && #[trigger] groups@[i].has(id) implies m@[id]
                            == all[i] + (id - groups@[i].first) by {
                            assert(in_groups(groups@, id));
                            assert(declared.contains_key(id));
                            assert(all[i] == nats(bases@)[i]);
                        }
                        assert(shared_placement(
                            m@,
                            e as nat,
                            groups@,
                            lives,
                            refs@.to_set(),
                            start as nat,
                        ));
                    }
                    Some((m, e))
                },
            }
        },
    }
}

/// Whether a placement is that of declared groups, sharing where lives do not meet, and of
/// the registers that operations name. Scalar registers have a place each.
pub open spec fn shared_allocation_of(
    a: RegAlloc,
    v_groups: Seq<Group>,
    s_groups: Seq<Group>,
    ops: Seq<Op>,
) -> bool {
    &&& shared_placement(
        a.vgpr_map@,
        a.total_vgprs as nat,
        v_groups,
        lives_of(ops, v_groups),
        named_vregs(ops),
        FIRST_VGPR as nat,
    )
    &&& placement_of(
        a.sgpr_map@,
        a.total_sgprs as nat,
        s_groups,
        named_sregs(ops),
        FIRST_SGPR as nat,
    )
    &&& a.total_vgprs <= MAX_VGPRS
    &&& a.total_sgprs <= MAX_SGPRS
}

/// Whether there are too few physical registers of a kind, though vector registers are
/// shared. Vector registers are placed first.
pub open spec fn shared_exhausted(
    e: AllocError,
    v_groups: Seq<Group>,
    s_groups: Seq<Group>,
    ops: Seq<Op>,
) -> bool {
    let v = shared_space(
        v_groups,
        lives_of(ops, v_groups),
        named_vregs(ops),
        FIRST_VGPR as nat,
    );
    let s = space_needed(s_groups, named_sregs(ops), FIRST_SGPR as nat);
    match e {
        AllocError::OutOfVgprs => v > MAX_VGPRS,
        AllocError::OutOfSgprs => v <= MAX_VGPRS && s > MAX_SGPRS,
    }
}

/// Places the registers of a kernel; groups of vector registers share physical ones when
/// their lives do not meet.
pub fn allocate_sharing(
    vreg_allocs: &Vec<VRegAlloc>,
    sreg_allocs: &Vec<SRegAlloc>,
    ops: &[Op],
) -> (r: Result<RegAlloc, AllocError>)
    requires
        groups_valid(v_groups(vreg_allocs@)),
        groups_valid(s_groups(sreg_allocs@)),
    ensures
        match r {
            Ok(a) => shared_allocation_of(a, v_groups(vreg_allocs@), s_groups(sreg_allocs@), ops@),
            Err(e) => shared_exhausted(e, v_groups(vreg_allocs@), s_groups(sreg_allocs@), ops@),
        },
{
    let vg = v_group_vec(vreg_allocs);
    let sg = s_group_vec(sreg_allocs);
    let vr = vreg_refs_of(ops);
    let sr = sreg_refs_of(ops);
    match place_sharing(&vg, &vr, ops, FIRST_VGPR, MAX_VGPRS) {
        None => Err(AllocError::OutOfVgprs),
        Some((vgpr_map, total_vgprs)) => match place(&sg, &sr, FIRST_SGPR, MAX_SGPRS) {
            None => Err(AllocError::OutOfSgprs),
            Some((sgpr_map, total_sgprs)) => Ok(
                RegAlloc { vgpr_map, sgpr_map, total_vgprs, total_sgprs },
            ),
        },
    }
}

/// Two placements of the same kernel are the same.
pub proof fn shared_allocation_is_unique(
    a: RegAlloc,
    b: RegAlloc,
    v_groups: Seq<Group>,
    s_groups: Seq<Group>,
    ops: Seq<Op>,
)
    requires
        shared_allocation_of(a, v_groups, s_groups, ops),
        shared_allocation_of(b, v_groups, s_groups, ops),
    ensures
        a.vgpr_map@ == b.vgpr_map@,
        a.sgpr_map@ == b.sgpr_map@,
        a.total_vgprs == b.total_vgprs,
        a.total_sgprs == b.total_sgprs,
{
    let x = a.vgpr_map@;
    let y = b.vgpr_map@;
    assert forall|id: u32| x.contains_key(id) implies #[trigger] x[id] == y[id] by {
        if in_groups(v_groups, id) {
            let i = choose|i: int| 0 <= i < v_groups.len() && #[trigger] v_groups[i].has(id);
            assert(v_groups[i].has(id));
        } else {
            assert(leftover(v_groups, named_vregs(ops)).contains(id));
        }
    }
    assert forall|id: u32| x.contains_key(id) <==> y.contains_key(id) by {}
    assert(x =~= y);
    crate::regalloc::lemma_placement_is_unique(
        a.sgpr_map@,
        b.sgpr_map@,
        a.total_sgprs as nat,
        s_groups,
        named_sregs(ops),
        FIRST_SGPR as nat,
    );
}

} // verus!
