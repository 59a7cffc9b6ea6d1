//! Spilling: what a kernel does when its vector registers do not suffice.
//!
//! Groups of registers that live long and are seldom named move to the local data share. Every
//! thread has a slot there for each register that moved, behind what the kernel itself uses. An
//! operation that names such registers works on a few registers that all operations share: it
//! loads into them what it reads, and stores from them what it wrote.
use std::collections::HashSet;

use vstd::prelude::*;

use crate::asm_emitter::{
    all_encodable, encodable, is_encodable, srange_placed, vrange_placed,
};
use crate::compile::{CoalescedGroup, MAX_OPS, lemma_v_groups_valid, vregs_ordered};
use crate::fold::{check_in_group, in_group};
use crate::ir::{
    Alignment, Op, OpOf, SRegAlloc, VReg, VRegAlloc, op_vreg_defs, op_vreg_refs,
    op_vreg_uses,
};
use crate::latency_model::{WaitCounter, latency_of, op_latency};
use crate::lives::{
    allocate_sharing, check_mentions, find_lives, life, life_found, lives_found, lives_of, mentions,
    shared_allocation_is_unique, shared_allocation_of, unreadable,
};
use crate::loops::names;
use crate::opt_passes::{
    hides_lanes, max_vreg, max_vreg_in_ops, max_vreg_is_largest, rename_op_vregs, renamed_op,
    writes_vreg,
};
use crate::regalloc::{
    Group, RegAlloc, align_up, groups_valid, s_groups, v_group, v_group_vec, v_groups,
};

verus! {

broadcast use vstd::std_specs::hash::group_hash_axioms;

// ── Which groups move ──
/// Whether an operation hands values from lane to lane.
pub open spec fn crosses_lanes(op: Op) -> bool {
    ||| op is VReadfirstlane
    ||| op is VPermlanex16B32
    ||| op is DsSwizzle
    ||| op is WaveReduceAddF32
    ||| op is WaveReduceMaxF32
    ||| op is WaveReduceMinF32
    ||| op is Wmma
}

/// Whether operations change which lanes take part.
pub open spec fn masked(ops: Seq<Op>) -> bool {
    exists|k: int| 0 <= k < ops.len() && hides_lanes(#[trigger] ops[k])
}

/// Whether the values of a group go from lane to lane where not all lanes may take part.
pub open spec fn crosses_masked(ops: Seq<Op>, g: Group) -> bool {
    masked(ops) && exists|k: int|
        0 <= k < ops.len() && crosses_lanes(#[trigger] ops[k]) && mentions(ops[k], g)
}

/// Whether a group holds a register of a group that has to stay consecutive.
pub open spec fn holds_coalesced(g: Group, groups: Seq<CoalescedGroup>) -> bool {
    exists|id: u32| g.has(id) && #[trigger] in_group(groups, id)
}

/// Whether a group may move.
pub open spec fn may_move(ops: Seq<Op>, g: Group, groups: Seq<CoalescedGroup>) -> bool {
    g.count > 0 && !holds_coalesced(g, groups) && !crosses_masked(ops, g)
}

/// How many operations a life has.
pub open spec fn length(l: (int, int)) -> nat {
    if l.0 <= l.1 {
        (l.1 - l.0 + 1) as nat
    } else {
        0
    }
}

/// How many of the first `n` operations name a register of a group.
pub open spec fn mention_count(ops: Seq<Op>, g: Group, n: int) -> nat
    decreases n,
{
    if n <= 0 {
        0
    } else {
        mention_count(ops, g, n - 1) + if mentions(ops[n - 1], g) {
            1nat
        } else {
            0
        }
    }
}

/// Whether one group is idle for longer than another: whether it has more of its life for each
/// operation that names it.
pub open spec fn idler(ops: Seq<Op>, a: Group, b: Group) -> bool {
    length(life(ops, a)) * mention_count(ops, b, ops.len() as int) > length(life(ops, b))
        * mention_count(ops, a, ops.len() as int)
}

/// Of the first `m` groups that may move and were not chosen, the first that is idle for
/// longest.
pub open spec fn longest(
    ops: Seq<Op>,
    groups: Seq<Group>,
    fixed: Seq<CoalescedGroup>,
    chosen: Seq<int>,
    m: int,
) -> Option<int>
    decreases m,
{
    if m <= 0 {
        None
    } else {
        let before = longest(ops, groups, fixed, chosen, m - 1);
        if chosen.contains(m - 1) || !may_move(ops, groups[m - 1], fixed) {
            before
        } else {
            match before {
                Some(b) => if idler(ops, groups[m - 1], groups[b]) {
                    Some(m - 1)
                } else {
                    before
                },
                None => Some(m - 1),
            }
        }
    }
}

/// Up to `n` groups that move: those that are idle for longest.
pub open spec fn chosen_of(
    ops: Seq<Op>,
    groups: Seq<Group>,
    fixed: Seq<CoalescedGroup>,
    n: nat,
) -> Seq<int>
    decreases n,
{
    if n == 0 {
        Seq::empty()
    } else {
        let before = chosen_of(ops, groups, fixed, (n - 1) as nat);
        match longest(ops, groups, fixed, before, groups.len() as int) {
            Some(b) => before.push(b),
            None => before,
        }
    }
}

// ── Slots and shared registers ──
/// Where what moves goes to: the groups that move, the first number that no register has, the
/// end of the kernel's own part of the local data share, and the bytes from slot to slot.
pub struct Plan {
    pub groups: Seq<Group>,
    pub fresh: nat,
    pub lds: nat,
    pub stride: nat,
}

/// How many numbers have to be free for the shared registers.
pub const ID_ROOM: u32 = 0x10_0000;

/// How many bytes of the local data share operations can name.
pub const LDS_END: u32 = 0x1_0000;

/// The registers of the first `n` groups.
pub open spec fn slots_before(groups: Seq<Group>, n: int) -> nat
    decreases n,
{
    if n <= 0 {
        0
    } else {
        slots_before(groups, n - 1) + groups[n - 1].count as nat
    }
}

/// The slot of a register of the first `n` groups.
pub open spec fn slot_in(groups: Seq<Group>, n: int, id: u32) -> Option<nat>
    decreases n,
{
    if n <= 0 {
        None
    } else if groups[n - 1].has(id) {
        Some((slots_before(groups, n - 1) + (id - groups[n - 1].first)) as nat)
    } else {
        slot_in(groups, n - 1, id)
    }
}

/// The lowest of the first `n` registers that belongs to a group, or the group's end.
pub open spec fn lowest(refs: Seq<VReg>, g: Group, n: int) -> int
    decreases n,
{
    if n <= 0 {
        g.first + g.count
    } else {
        let before = lowest(refs, g, n - 1);
        if g.has(refs[n - 1].0) && refs[n - 1].0 < before {
            refs[n - 1].0 as int
        } else {
            before
        }
    }
}

/// The end of those of the first `n` registers that belong to a group, or the group's start.
pub open spec fn highest(refs: Seq<VReg>, g: Group, n: int) -> int
    decreases n,
{
    if n <= 0 {
        g.first as int
    } else {
        let before = highest(refs, g, n - 1);
        if g.has(refs[n - 1].0) && refs[n - 1].0 + 1 > before {
            refs[n - 1].0 + 1
        } else {
            before
        }
    }
}

/// The first register of a group that an operation works on, down to the group's alignment.
pub open spec fn part_start(op: Op, g: Group) -> int {
    let low = lowest(op_vreg_refs(op), g, op_vreg_refs(op).len() as int);
    low - (low - g.first) % g.align as int
}

/// How many registers of a group an operation works on, from the first to the last.
pub open spec fn part_len(op: Op, g: Group) -> int {
    highest(op_vreg_refs(op), g, op_vreg_refs(op).len() as int) - part_start(op, g)
}

/// The end of the shared registers that an operation takes for the first `n` groups.
pub open spec fn shared_end(op: Op, groups: Seq<Group>, n: int) -> nat
    decreases n,
{
    if n <= 0 {
        0
    } else if mentions(op, groups[n - 1]) {
        (align_up(shared_end(op, groups, n - 1), groups[n - 1].align as nat) + part_len(
            op,
            groups[n - 1],
        )) as nat
    } else {
        shared_end(op, groups, n - 1)
    }
}

/// Where the part of a group stands among the shared registers that an operation takes.
pub open spec fn shared_at(op: Op, groups: Seq<Group>, n: int) -> nat {
    align_up(shared_end(op, groups, n), groups[n].align as nat)
}

/// The register that stands for a register of the first `n` groups in an operation.
pub open spec fn stand_in(op: Op, groups: Seq<Group>, n: int, base: nat, id: u32) -> nat
    decreases n,
{
    if n <= 0 {
        id as nat
    } else if groups[n - 1].has(id) {
        (base + shared_at(op, groups, n - 1) + (id - part_start(op, groups[n - 1]))) as nat
    } else {
        stand_in(op, groups, n - 1, base, id)
    }
}

impl Plan {
    /// Bytes of the local data share for the slots.
    pub open spec fn bytes(self) -> nat {
        slots_before(self.groups, self.groups.len() as int) * self.stride
    }

    /// The slot of a register, if it moved.
    pub open spec fn slot(self, id: u32) -> Option<nat> {
        slot_in(self.groups, self.groups.len() as int, id)
    }

    /// Where a slot starts: that of the first thread.
    pub open spec fn offset(self, id: u32) -> nat {
        match self.slot(id) {
            Some(s) => self.lds + s * self.stride,
            None => 0,
        }
    }

    /// The register that stands for a register in an operation.
    pub open spec fn temp(self, op: Op, id: u32) -> VReg {
        VReg(
            stand_in(
                op,
                self.groups,
                self.groups.len() as int,
                self.fresh + 1,
                id,
            ) as u32,
        )
    }

    /// Whether the slots fit, and the numbers of the shared registers are free.
    pub open spec fn fits(self) -> bool {
        &&& groups_valid(self.groups)
        &&& self.groups.len() > 0
        &&& self.stride >= 4
        &&& self.stride % 4 == 0
        &&& self.lds % 4 == 0
        &&& self.lds + self.bytes() <= LDS_END
        &&& self.fresh + ID_ROOM <= u32::MAX
        &&& forall|i: int|
            0 <= i < self.groups.len() ==> 0 < (#[trigger] self.groups[i]).count
                && self.groups[i].first + self.groups[i].count <= self.fresh
    }

    /// The register with the threads' part of the slots' addresses.
    pub open spec fn address(self) -> VReg {
        VReg(self.fresh as u32)
    }
}

/// The numbers of the registers of a group.
pub open spec fn ids_of(g: Group) -> Set<u32> {
    Set::new(|id: u32| g.has(id))
}

/// An operation on the registers that stand for those of the first `n` groups.
pub open spec fn moved_op(op: Op, plan: Plan, n: int) -> Op
    decreases n,
{
    if n <= 0 {
        op
    } else {
        let before = moved_op(op, plan, n - 1);
        let g = plan.groups[n - 1];
        if mentions(op, g) {
            renamed_op(
                before,
                (plan.fresh + 1 + shared_at(op, plan.groups, n - 1) - part_start(op, g)) as u32,
                ids_of(g),
            )
        } else {
            before
        }
    }
}

/// The registers that stand for registers in an operation.
pub open spec fn temps(regs: Seq<VReg>, op: Op, plan: Plan) -> Seq<VReg> {
    regs.map_values(|v: VReg| plan.temp(op, v.0))
}

/// Whether an operation can work on the registers that stand for its own: it then reads and
/// writes those, in the same order.
pub open spec fn moves_whole(op: Op, plan: Plan) -> bool {
    let to = moved_op(op, plan, plan.groups.len() as int);
    op_vreg_uses(to) == temps(op_vreg_uses(op), op, plan) && op_vreg_defs(to) == temps(
        op_vreg_defs(op),
        op,
        plan,
    )
}

/// The loads of those of the registers that moved.
pub open spec fn reloads(regs: Seq<VReg>, op: Op, plan: Plan) -> Seq<Op>
    decreases regs.len(),
{
    if regs.len() == 0 {
        Seq::empty()
    } else {
        let rest = reloads(regs.drop_last(), op, plan);
        let id = regs.last().0;
        if plan.slot(id) is Some {
            rest.push(
                OpOf::DsLoadB32 {
                    dst: plan.temp(op, id),
                    vaddr: plan.address(),
                    offset: plan.offset(id) as u16,
                },
            )
        } else {
            rest
        }
    }
}

/// The stores of those of the registers that moved.
pub open spec fn stores(regs: Seq<VReg>, op: Op, plan: Plan) -> Seq<Op>
    decreases regs.len(),
{
    if regs.len() == 0 {
        Seq::empty()
    } else {
        let rest = stores(regs.drop_last(), op, plan);
        let id = regs.last().0;
        if plan.slot(id) is Some {
            rest.push(
                OpOf::DsStoreB32 {
                    vaddr: plan.address(),
                    src: plan.temp(op, id),
                    offset: plan.offset(id) as u16,
                },
            )
        } else {
            rest
        }
    }
}

/// The wait for loads, if there are any.
pub open spec fn wait_behind(loads: Seq<Op>) -> Seq<Op> {
    if loads.len() > 0 {
        seq![OpOf::WaitLgkmcnt(0)]
    } else {
        Seq::empty()
    }
}

/// The wait for what an operation itself leaves outstanding, if something is stored then.
pub open spec fn wait_for(op: Op, stored: Seq<Op>) -> Seq<Op> {
    if stored.len() == 0 {
        Seq::empty()
    } else {
        match latency_of(op).wait_counter {
            Some(WaitCounter::LGKMcnt) => seq![OpOf::WaitLgkmcnt(0)],
            Some(_) => seq![OpOf::WaitVmcnt(0)],
            None => if op is DsSwizzle {
                seq![OpOf::WaitLgkmcnt(0)]
            } else {
                Seq::empty()
            },
        }
    }
}

/// An operation on shared registers, with the loads in front of it and the stores behind it.
pub open spec fn spilled_op(op: Op, plan: Plan) -> Seq<Op> {
    let loads = reloads(op_vreg_uses(op), op, plan);
    let stored = stores(op_vreg_defs(op), op, plan);
    loads + wait_behind(loads) + seq![moved_op(op, plan, plan.groups.len() as int)] + wait_for(
        op,
        stored,
    ) + stored
}

/// The first `n` operations with loads and stores.
pub open spec fn spilled_from(ops: Seq<Op>, plan: Plan, n: int) -> Seq<Op>
    decreases n,
{
    if n <= 0 {
        Seq::empty()
    } else {
        spilled_from(ops, plan, n - 1) + spilled_op(ops[n - 1], plan)
    }
}

/// The operations with loads and stores. The first one computes the threads' part of the
/// slots' addresses.
pub open spec fn spilled(ops: Seq<Op>, plan: Plan) -> Seq<Op> {
    seq![OpOf::VLshlrevB32 { dst: plan.address(), shift: 2u8, src: VReg(0) }] + spilled_from(
        ops,
        plan,
        ops.len() as int,
    )
}

/// How many shared registers the first `n` operations take.
pub open spec fn shared_count(ops: Seq<Op>, plan: Plan, n: int) -> nat
    decreases n,
{
    if n <= 0 {
        0
    } else {
        let before = shared_count(ops, plan, n - 1);
        let here = shared_end(ops[n - 1], plan.groups, plan.groups.len() as int);
        if here > before {
            here
        } else {
            before
        }
    }
}

/// Those of the first `m` declarations that were not chosen.
pub open spec fn staying(allocs: Seq<VRegAlloc>, chosen: Seq<int>, m: int) -> Seq<VRegAlloc>
    decreases m,
{
    if m <= 0 {
        Seq::empty()
    } else if chosen.contains(m - 1) {
        staying(allocs, chosen, m - 1)
    } else {
        staying(allocs, chosen, m - 1).push(allocs[m - 1])
    }
}

/// The declarations of what stays, of the address, and of the shared registers.
pub open spec fn spill_allocs(
    allocs: Seq<VRegAlloc>,
    chosen: Seq<int>,
    ops: Seq<Op>,
    plan: Plan,
) -> Seq<VRegAlloc> {
    staying(allocs, chosen, allocs.len() as int).push(
        VRegAlloc { vreg: plan.address(), count: 1, alignment: Alignment::Align1 },
    ).push(
        VRegAlloc {
            vreg: VReg((plan.fresh + 1) as u32),
            count: shared_count(ops, plan, ops.len() as int) as u32,
            alignment: Alignment::Align8,
        },
    )
}

/// The groups that were chosen.
pub open spec fn groups_at(groups: Seq<Group>, chosen: Seq<int>) -> Seq<Group> {
    chosen.map_values(|i: int| groups[i])
}

/// The first number that neither a declaration below `next` nor an operation has.
pub open spec fn fresh_id(ops: Seq<Op>, next: nat) -> nat {
    if max_vreg(ops) >= next {
        max_vreg(ops) + 1
    } else {
        next
    }
}

// ── Placement ──
/// Whether the registers of a group that have a place have consecutive places.
pub open spec fn group_kept(ra: RegAlloc, g: CoalescedGroup) -> bool {
    forall|a: u32, b: u32|
        in_group(seq![g], a) && in_group(seq![g], b) && #[trigger] ra.vgpr_map@.contains_key(a)
            && #[trigger] ra.vgpr_map@.contains_key(b) ==> ra.vgpr_map@[a] - ra.vgpr_map@[b] == a
            - b
}

/// Whether all groups that have to stay consecutive do.
pub open spec fn groups_kept(ra: RegAlloc, groups: Seq<CoalescedGroup>) -> bool {
    forall|i: int| 0 <= i < groups.len() ==> group_kept(ra, #[trigger] groups[i])
}

/// What spilling starts from: the operations, the declarations of which they name a register,
/// those of scalar registers, the groups that have to stay consecutive, the next free number,
/// and the kernel's local data share and workgroup.
pub struct Source {
    pub ops: Seq<Op>,
    pub allocs: Seq<VRegAlloc>,
    pub sregs: Seq<SRegAlloc>,
    pub fixed: Seq<CoalescedGroup>,
    pub next: nat,
    pub lds: u32,
    pub wg: u32,
}

impl Source {
    /// The groups that move when up to `n` do.
    pub open spec fn chosen(self, n: nat) -> Seq<int> {
        chosen_of(self.ops, v_groups(self.allocs), self.fixed, n)
    }

    /// Where up to `n` groups move to.
    pub open spec fn plan(self, n: nat) -> Plan {
        Plan {
            groups: groups_at(v_groups(self.allocs), self.chosen(n)),
            fresh: fresh_id(self.ops, self.next),
            lds: self.lds as nat,
            stride: 4 * self.wg as nat,
        }
    }

    /// The operations when up to `n` groups move.
    pub open spec fn ops_with(self, n: nat) -> Seq<Op> {
        spilled(self.ops, self.plan(n))
    }

    /// Whether the registers have their places when up to `n` groups move.
    pub open spec fn placed_with(self, n: nat, ra: RegAlloc) -> bool {
        &&& shared_allocation_of(
            ra,
            v_groups(spill_allocs(self.allocs, self.chosen(n), self.ops, self.plan(n))),
            s_groups(self.sregs),
            self.ops_with(n),
        )
        &&& all_encodable(self.ops_with(n), ra)
        &&& groups_kept(ra, self.fixed)
    }

    /// Whether up to `n` groups can move, and what is left fits.
    pub open spec fn fits_with(self, n: nat) -> bool {
        &&& !unreadable(self.ops)
        &&& self.plan(n).fits()
        &&& forall|i: int|
            0 <= i < self.ops.len() ==> moves_whole(#[trigger] self.ops[i], self.plan(n))
        &&& self.ops_with(n).len() <= MAX_OPS
        &&& exists|ra: RegAlloc| #[trigger] self.placed_with(n, ra)
    }

    /// How many groups to try next: twice as many, but no more than there are.
    pub open spec fn next_count(self, n: nat) -> nat {
        if 2 * n <= self.allocs.len() {
            2 * n
        } else {
            self.allocs.len()
        }
    }

    /// How many groups move: the first of `n`, twice `n` and so on, up to all, with which what
    /// is left fits.
    pub open spec fn count_from(self, n: nat) -> Option<nat>
        decreases
                if n < self.allocs.len() {
                    self.allocs.len() - n
                } else {
                    0
                },
    {
        if self.fits_with(n) {
            Some(n)
        } else if n == 0 || n >= self.allocs.len() {
            None
        } else {
            self.count_from(self.next_count(n))
        }
    }

    /// Whether declarations follow each other.
    pub open spec fn wf(self) -> bool {
        &&& vregs_ordered(self.allocs, self.next)
        &&& 1 <= self.next <= u32::MAX
        &&& groups_valid(s_groups(self.sregs))
    }
}

// ── Choosing ──
/// Indices as specifications see them.
spec fn ints(v: Seq<usize>) -> Seq<int> {
    v.map_values(|x: usize| x as int)
}

/// Whether an operation hands values from lane to lane.
fn check_crosses(op: &Op) -> (r: bool)
    ensures
        r == crosses_lanes(*op),
{
    matches!(op, OpOf::VReadfirstlane { .. } | OpOf::VPermlanex16B32 { .. }
        | OpOf::DsSwizzle { .. } | OpOf::WaveReduceAddF32 { .. } | OpOf::WaveReduceMaxF32 { .. }
        | OpOf::WaveReduceMinF32 { .. } | OpOf::Wmma { .. })
}

/// Whether operations change which lanes take part.
fn check_masked(ops: &Vec<Op>) -> (r: bool)
    ensures
        r == masked(ops@),
{
    let mut k: usize = 0;
    while k < ops.len()
        invariant
            k <= ops.len(),
            forall|j: int| 0 <= j < k ==> !hides_lanes(#[trigger] ops@[j]),
        decreases ops.len() - k,
    {
        if matches!(&ops[k], OpOf::SaveExec { .. } | OpOf::RestoreExec { .. } | OpOf::XorExec { .. }
            | OpOf::RawAsm(_)) {
            assert(hides_lanes(ops@[k as int]));
            return true;
        }
        k = k + 1;
    }
    false
}

/// Whether a group may move.
fn check_may_move(ops: &Vec<Op>, g: &Group, fixed: &[CoalescedGroup], has_masks: bool) -> (r: bool)
    requires
        g.valid(),
        has_masks == masked(ops@),
    ensures
        r == may_move(ops@, *g, fixed@),
{
    if g.count == 0 {
        return false;
    }
    let mut k: u32 = 0;
    while k < g.count
        invariant
            k <= g.count,
            g.valid(),
            forall|id: u32|
                g.first <= id < g.first + k ==> !#[trigger] in_group(fixed@, id),
        decreases g.count - k,
    {
        if check_in_group(fixed, g.first + k) {
            assert(g.has((g.first + k) as u32) && in_group(fixed@, (g.first + k) as u32));
            return false;
        }
        k = k + 1;
    }
    assert(!holds_coalesced(*g, fixed@));
    if has_masks {
        let mut i: usize = 0;
        while i < ops.len()
            invariant
                i <= ops.len(),
                g.valid(),
                has_masks == masked(ops@),
                has_masks,
                forall|j: int|
                    0 <= j < i ==> !(crosses_lanes(#[trigger] ops@[j]) && mentions(ops@[j], *g)),
            decreases ops.len() - i,
        {
            if check_crosses(&ops[i]) && check_mentions(&ops[i], g) {
                assert(crosses_lanes(ops@[i as int]) && mentions(ops@[i as int], *g));
                return false;
            }
            i = i + 1;
        }
    }
    true
}

/// How many operations a life has.
fn find_length(found: &(usize, usize, bool)) -> (r: usize)
    requires
        found.2 ==> found.1 < usize::MAX,
    ensures
        forall|l: (int, int), n: nat| #[trigger] life_found(*found, l, n) ==> r == length(l),
{
    if found.2 && found.0 <= found.1 {
        found.1 - found.0 + 1
    } else {
        0
    }
}

/// Whether a list holds an index.
fn has_index(v: &Vec<usize>, x: usize) -> (r: bool)
    ensures
        r == ints(v@).contains(x as int),
{
    let mut i: usize = 0;
    while i < v.len()
        invariant
            i <= v.len(),
            forall|k: int| 0 <= k < i ==> #[trigger] v@[k] != x,
        decreases v.len() - i,
    {
        if v[i] == x {
            assert(ints(v@)[i as int] == x as int);
            return true;
        }
        i = i + 1;
    }
    assert forall|k: int| 0 <= k < ints(v@).len() implies #[trigger] ints(v@)[k] != x as int by {
        assert(v@[k] != x);
    }
    false
}

/// How many operations name a register of each group.
fn count_mentions(ops: &Vec<Op>, groups: &Vec<Group>) -> (r: Vec<usize>)
    requires
        groups_valid(groups@),
    ensures
        r@.len() == groups@.len(),
        forall|i: int|
            0 <= i < groups@.len() ==> #[trigger] r@[i] == mention_count(
                ops@,
                groups@[i],
                ops@.len() as int,
            ),
{
    let mut out: Vec<usize> = Vec::new();
    let mut i: usize = 0;
    while i < groups.len()
        invariant
            i <= groups.len(),
            groups_valid(groups@),
            out@.len() == i,
            forall|k: int|
                0 <= k < i ==> #[trigger] out@[k] == mention_count(
                    ops@,
                    groups@[k],
                    ops@.len() as int,
                ),
        decreases groups.len() - i,
    {
        let g = groups[i];
        assert(groups@[i as int].valid());
        let mut count: usize = 0;
        let mut k: usize = 0;
        while k < ops.len()
            invariant
                k <= ops.len(),
                g.valid(),
                count == mention_count(ops@, g, k as int),
                count <= k,
            decreases ops.len() - k,
        {
            if check_mentions(&ops[k], &g) {
                count = count + 1;
            }
            k = k + 1;
        }
        out.push(count);
        i = i + 1;
    }
    out
}

/// Whether one product is larger than another.
fn larger_product(a: usize, b: usize, c: usize, d: usize) -> (r: bool)
    ensures
        r == (a * b > c * d),
{
    assert(0 <= a * b <= u128::MAX && 0 <= c * d <= u128::MAX) by (nonlinear_arith)
        requires
            0 <= a <= u64::MAX,
            0 <= b <= u64::MAX,
            0 <= c <= u64::MAX,
            0 <= d <= u64::MAX,
    ;
    a as u128 * b as u128 > c as u128 * d as u128
}

/// The first group that is idle for longest of those that may move and were not chosen.
fn find_longest(
    groups: &Vec<Group>,
    found: &Vec<(usize, usize, bool)>,
    counts: &Vec<usize>,
    movable: &Vec<bool>,
    chosen: &Vec<usize>,
    ops: &Vec<Op>,
    fixed: &[CoalescedGroup],
) -> (r: Option<usize>)
    requires
        lives_found(found@, lives_of(ops@, groups@), ops@.len()),
        counts@.len() == groups@.len(),
        forall|i: int|
            0 <= i < groups@.len() ==> #[trigger] counts@[i] == mention_count(
                ops@,
                groups@[i],
                ops@.len() as int,
            ),
        movable@.len() == groups@.len(),
        forall|i: int|
            0 <= i < groups@.len() ==> #[trigger] movable@[i] == may_move(
                ops@,
                groups@[i],
                fixed@,
            ),
    ensures
        match r {
            Some(b) => longest(ops@, groups@, fixed@, ints(chosen@), groups@.len() as int) == Some(
                b as int,
            ) && b < groups@.len(),
            None => longest(
                ops@,
                groups@,
                fixed@,
                ints(chosen@),
                groups@.len() as int,
            ) is None,
        },
{
    let ghost cs = ints(chosen@);
    let total: usize = ops.len();
    let mut best: Option<usize> = None;
    let mut m: usize = 0;
    while m < groups.len()
        invariant
            m <= groups.len(),
            total == ops@.len(),
            cs == ints(chosen@),
            lives_found(found@, lives_of(ops@, groups@), ops@.len()),
            counts@.len() == groups@.len(),
            forall|x: int|
                0 <= x < groups@.len() ==> #[trigger] counts@[x] == mention_count(
                    ops@,
                    groups@[x],
                    ops@.len() as int,
                ),
            movable@.len() == groups@.len(),
            forall|i: int|
                0 <= i < groups@.len() ==> #[trigger] movable@[i] == may_move(
                    ops@,
                    groups@[i],
                    fixed@,
                ),
            match best {
                Some(b) => longest(ops@, groups@, fixed@, cs, m as int) == Some(b as int) && b < m,
                None => longest(ops@, groups@, fixed@, cs, m as int) is None,
            },
        decreases groups.len() - m,
    {
        let ghost lives = lives_of(ops@, groups@);
        assert(life_found(found@[m as int], lives[m as int], ops@.len()));
        if !has_index(chosen, m) && movable[m] {
            match best {
                None => {
                    best = Some(m);
                },
                Some(b) => {
                    assert(life_found(found@[b as int], lives[b as int], ops@.len()));
                    if larger_product(
                        find_length(&found[m]),
                        counts[b],
                        find_length(&found[b]),
                        counts[m],
                    ) {
                        best = Some(m);
                    }
                },
            }
        }
        m = m + 1;
    }
    best
}

/// Up to `n` groups that move.
fn choose_groups(
    groups: &Vec<Group>,
    found: &Vec<(usize, usize, bool)>,
    counts: &Vec<usize>,
    movable: &Vec<bool>,
    ops: &Vec<Op>,
    fixed: &[CoalescedGroup],
    n: usize,
) -> (r: Vec<usize>)
    requires
        lives_found(found@, lives_of(ops@, groups@), ops@.len()),
        counts@.len() == groups@.len(),
        forall|i: int|
            0 <= i < groups@.len() ==> #[trigger] counts@[i] == mention_count(
                ops@,
                groups@[i],
                ops@.len() as int,
            ),
        movable@.len() == groups@.len(),
        forall|i: int|
            0 <= i < groups@.len() ==> #[trigger] movable@[i] == may_move(
                ops@,
                groups@[i],
                fixed@,
            ),
    ensures
        ints(r@) == chosen_of(ops@, groups@, fixed@, n as nat),
        forall|k: int| 0 <= k < r@.len() ==> #[trigger] r@[k] < groups@.len(),
{
    let mut chosen: Vec<usize> = Vec::new();
    let mut i: usize = 0;
    assert(ints(chosen@) =~= Seq::empty());
    while i < n
        invariant
            i <= n,
            lives_found(found@, lives_of(ops@, groups@), ops@.len()),
            counts@.len() == groups@.len(),
            forall|x: int|
                0 <= x < groups@.len() ==> #[trigger] counts@[x] == mention_count(
                    ops@,
                    groups@[x],
                    ops@.len() as int,
                ),
            movable@.len() == groups@.len(),
            forall|k: int|
                0 <= k < groups@.len() ==> #[trigger] movable@[k] == may_move(
                    ops@,
                    groups@[k],
                    fixed@,
                ),
            ints(chosen@) == chosen_of(ops@, groups@, fixed@, i as nat),
            forall|k: int| 0 <= k < chosen@.len() ==> #[trigger] chosen@[k] < groups@.len(),
        decreases n - i,
    {
        let ghost before = chosen@;
        match find_longest(groups, found, counts, movable, &chosen, ops, fixed) {
            Some(b) => {
                chosen.push(b);
                assert(ints(chosen@) =~= ints(before).push(b as int));
            },
            None => {},
        }
        i = i + 1;
    }
    chosen
}

proof fn lemma_longest(
    ops: Seq<Op>,
    groups: Seq<Group>,
    fixed: Seq<CoalescedGroup>,
    chosen: Seq<int>,
    m: int,
)
    ensures
        longest(ops, groups, fixed, chosen, m) matches Some(b) ==> 0 <= b < m && !chosen.contains(b)
            && may_move(ops, groups[b], fixed),
    decreases m,
{
    if m > 0 {
        lemma_longest(ops, groups, fixed, chosen, m - 1);
    }
}

/// What is chosen exists, may move, and is chosen once.
proof fn lemma_chosen(ops: Seq<Op>, groups: Seq<Group>, fixed: Seq<CoalescedGroup>, n: nat)
    ensures
        forall|k: int|
            0 <= k < chosen_of(ops, groups, fixed, n).len() ==> 0 <= #[trigger] chosen_of(
                ops,
                groups,
                fixed,
                n,
            )[k] < groups.len() && may_move(
                ops,
                groups[chosen_of(ops, groups, fixed, n)[k]],
                fixed,
            ),
        forall|j: int, k: int|
            0 <= j < k < chosen_of(ops, groups, fixed, n).len() ==> #[trigger] chosen_of(
                ops,
                groups,
                fixed,
                n,
            )[j] != #[trigger] chosen_of(ops, groups, fixed, n)[k],
    decreases n,
{
    if n > 0 {
        let before = chosen_of(ops, groups, fixed, (n - 1) as nat);
        let all = chosen_of(ops, groups, fixed, n);
        lemma_chosen(ops, groups, fixed, (n - 1) as nat);
        lemma_longest(ops, groups, fixed, before, groups.len() as int);
        assert forall|k: int| 0 <= k < all.len() implies 0 <= #[trigger] all[k] < groups.len()
            && may_move(ops, groups[all[k]], fixed) by {
            if k < before.len() {
                assert(all[k] == before[k]);
            }
        }
        assert forall|j: int, k: int| 0 <= j < k < all.len() implies #[trigger] all[j]
            != #[trigger] all[k] by {
            assert(all[j] == before[j]);
            if k < before.len() {
                assert(all[k] == before[k]);
            } else {
                assert(before.contains(before[j]));
            }
        }
    }
}

/// The groups that move are valid, as all groups are.
proof fn lemma_moving_valid(ops: Seq<Op>, groups: Seq<Group>, fixed: Seq<CoalescedGroup>, n: nat)
    requires
        groups_valid(groups),
    ensures
        groups_valid(groups_at(groups, chosen_of(ops, groups, fixed, n))),
        forall|i: int|
            0 <= i < groups_at(groups, chosen_of(ops, groups, fixed, n)).len() ==> 0 < (
            #[trigger] groups_at(groups, chosen_of(ops, groups, fixed, n))[i]).count,
{
    lemma_chosen(ops, groups, fixed, n);
    let c = chosen_of(ops, groups, fixed, n);
    let g = groups_at(groups, c);
    assert forall|i: int| 0 <= i < g.len() implies (#[trigger] g[i]).valid() by {
        assert(groups[c[i]].valid());
    }
    assert forall|i: int, j: int, id: u32|
        0 <= i < j < g.len() && #[trigger] g[i].has(id) implies !#[trigger] g[j].has(id) by {
        assert(c[i] != c[j]);
        assert(groups[c[i]].has(id));
        if groups[c[j]].has(id) {
            if c[i] < c[j] {
                assert(!groups[c[j]].has(id));
            } else {
                assert(!groups[c[i]].has(id));
            }
        }
    }
    assert forall|i: int| 0 <= i < g.len() implies 0 < (#[trigger] g[i]).count by {
        assert(may_move(ops, groups[c[i]], fixed));
    }
}

/// What stays follows each other as all declarations do.
proof fn lemma_staying_ordered(allocs: Seq<VRegAlloc>, chosen: Seq<int>, m: int, next: nat)
    requires
        0 <= m <= allocs.len(),
        vregs_ordered(allocs, next),
    ensures
        vregs_ordered(staying(allocs, chosen, m), next),
        forall|i: int|
            0 <= i < staying(allocs, chosen, m).len() ==> exists|j: int|
                0 <= j < m && #[trigger] allocs[j] == #[trigger] staying(allocs, chosen, m)[i],
    decreases m,
{
    let all = staying(allocs, chosen, m);
    if m > 0 {
        lemma_staying_ordered(allocs, chosen, m - 1, next);
        let before = staying(allocs, chosen, m - 1);
        let last = allocs[m - 1];
        assert forall|i: int| 0 <= i < all.len() implies exists|j: int|
            0 <= j < m && #[trigger] allocs[j] == #[trigger] all[i] by {
            if i < before.len() {
                let j = choose|j: int| 0 <= j < m - 1 && #[trigger] allocs[j] == before[i];
                assert(allocs[j] == all[i]);
            } else {
                assert(allocs[m - 1] == all[i]);
            }
        }
        assert forall|i: int| 0 <= i < all.len() implies 1 <= (#[trigger] all[i]).vreg.0
            && all[i].vreg.0 + all[i].count <= next by {
            let j = choose|j: int| 0 <= j < m && #[trigger] allocs[j] == all[i];
            assert(1 <= allocs[j].vreg.0);
        }
        assert forall|i: int, k: int| 0 <= i < k < all.len() implies (#[trigger] all[i]).vreg.0
            + all[i].count <= (#[trigger] all[k]).vreg.0 by {
            assert(all[i] == before[i]);
            if k < before.len() {
                assert(all[k] == before[k]);
            } else {
                let j = choose|j: int| 0 <= j < m - 1 && #[trigger] allocs[j] == before[i];
                assert(allocs[j].vreg.0 + allocs[j].count <= allocs[m - 1].vreg.0);
            }
        }
    }
}

// ── Rewriting ──
/// Where what moves goes to, as programs hold it.
struct SpillPlan {
    groups: Vec<Group>,
    fresh: u32,
    lds: u32,
    stride: u32,
}

impl SpillPlan {
    spec fn plan(self) -> Plan {
        Plan {
            groups: self.groups@,
            fresh: self.fresh as nat,
            lds: self.lds as nat,
            stride: self.stride as nat,
        }
    }
}

/// The part of a group that an operation works on is one: its registers are the group's, and
/// those that the operation names are among them.
proof fn lemma_part(op: Op, g: Group)
    requires
        g.valid(),
        g.count > 0,
    ensures
        mentions(op, g) ==> g.first <= part_start(op, g) && 0 < part_len(op, g) && part_start(op, g)
            + part_len(op, g) <= g.first + g.count,
        forall|id: u32| #[trigger]
            names(op, id) && g.has(id) ==> part_start(op, g) <= id < part_start(op, g) + part_len(
                op,
                g,
            ),
{
    let refs = op_vreg_refs(op);
    let n = refs.len() as int;
    lemma_ends(refs, g, n);
    let low = lowest(refs, g, n);
    let d = low - g.first;
    assert(0 <= d % g.align as int <= d) by (nonlinear_arith)
        requires
            d >= 0,
            g.align >= 1,
    ;
    if mentions(op, g) {
        let k = choose|k: int| 0 <= k < refs.len() && g.has((#[trigger] refs[k]).0);
        assert(low <= refs[k].0);
    }
    assert forall|id: u32| #[trigger] names(op, id) && g.has(id) implies part_start(op, g) <= id
        < part_start(op, g) + part_len(op, g) by {
        let k = choose|k: int| 0 <= k < refs.len() && refs[k] == VReg(id);
        assert(g.has(refs[k].0));
    }
}

proof fn lemma_ends(refs: Seq<VReg>, g: Group, n: int)
    requires
        0 <= n <= refs.len(),
    ensures
        g.first <= lowest(refs, g, n) <= g.first + g.count,
        g.first <= highest(refs, g, n) <= g.first + g.count,
        forall|k: int|
            0 <= k < n && g.has((#[trigger] refs[k]).0) ==> lowest(refs, g, n) <= refs[k].0
                < highest(refs, g, n),
    decreases n,
{
    if n > 0 {
        lemma_ends(refs, g, n - 1);
    }
}

/// The part of a group that an operation works on: its first register and its length.
fn find_part(op: &Op, g: &Group) -> (r: (u32, u32))
    requires
        g.valid(),
        g.count > 0,
        mentions(*op, *g),
    ensures
        r.0 == part_start(*op, *g),
        r.1 == part_len(*op, *g),
        g.first <= r.0,
        r.0 + r.1 <= g.first + g.count,
{
    let refs = op.vreg_refs();
    let mut low: u32 = g.first + g.count;
    let mut high: u32 = g.first;
    let mut k: usize = 0;
    while k < refs.len()
        invariant
            k <= refs.len(),
            g.valid(),
            refs@ == op_vreg_refs(*op),
            low == lowest(refs@, *g, k as int),
            high == highest(refs@, *g, k as int),
            g.first <= low <= g.first + g.count,
        decreases refs.len() - k,
    {
        let id: u32 = refs[k].0;
        if g.first <= id && id < g.first + g.count {
            if id < low {
                low = id;
            }
            if id + 1 > high {
                high = id + 1;
            }
        }
        k = k + 1;
    }
    proof {
        lemma_part(*op, *g);
        let d = low - g.first;
        assert(0 <= d % g.align as int <= d) by (nonlinear_arith)
            requires
                d >= 0,
                g.align >= 1,
        ;
    }
    let start: u32 = low - (low - g.first) % g.align;
    (start, high - start)
}

/// Shared registers and slots are few.
proof fn lemma_small(plan: Plan, op: Op, n: int)
    requires
        plan.fits(),
        0 <= n <= plan.groups.len(),
    ensures
        shared_end(op, plan.groups, n) <= 8 * slots_before(plan.groups, n),
        slots_before(plan.groups, n) <= slots_before(
            plan.groups,
            plan.groups.len() as int,
        ) <= 0x4000,
        n < plan.groups.len() ==> shared_at(op, plan.groups, n) + plan.groups[n].count <= 0x2_0000,
    decreases plan.groups.len() - n,
{
    let all = slots_before(plan.groups, plan.groups.len() as int);
    assert(all <= 0x4000) by (nonlinear_arith)
        requires
            all * plan.stride <= 0x1_0000,
            plan.stride >= 4,
            all >= 0,
    ;
    lemma_shared_end(plan.groups, op, n);
    if n < plan.groups.len() {
        lemma_small(plan, op, n + 1);
        assert(plan.groups[n].valid());
        lemma_up(shared_end(op, plan.groups, n), plan.groups[n].align as nat);
        assert(slots_before(plan.groups, n + 1) == slots_before(plan.groups, n)
            + plan.groups[n].count as nat);
        assert(0 < plan.groups[n].count);
    }
}

proof fn lemma_up(n: nat, a: nat)
    requires
        a == 1 || a == 2 || a == 4 || a == 8,
    ensures
        n <= align_up(n, a) <= n + 7,
{
}

proof fn lemma_shared_end(groups: Seq<Group>, op: Op, n: int)
    requires
        0 <= n <= groups.len(),
        groups_valid(groups),
        forall|i: int| 0 <= i < groups.len() ==> 0 < (#[trigger] groups[i]).count,
    ensures
        shared_end(op, groups, n) <= 8 * slots_before(groups, n),
    decreases n,
{
    if n > 0 {
        lemma_shared_end(groups, op, n - 1);
        assert(groups[n - 1].valid());
        assert(0 < groups[n - 1].count);
        lemma_part(op, groups[n - 1]);
        lemma_up(shared_end(op, groups, n - 1), groups[n - 1].align as nat);
    }
}

/// How far the registers that stand for those of a group are from them, for each group that an
/// operation names, and the end of the shared registers that it takes.
fn find_shared(op: &Op, plan: &SpillPlan) -> (r: (Vec<Option<u32>>, u32))
    requires
        plan.plan().fits(),
    ensures
        deltas_of(r.0@, *op, plan.plan()),
        r.1 == shared_end(*op, plan.groups@, plan.groups@.len() as int),
        r.1 <= 0x2_0000,
{
    let mut deltas: Vec<Option<u32>> = Vec::new();
    let mut end: u32 = 0;
    let mut i: usize = 0;
    while i < plan.groups.len()
        invariant
            i <= plan.groups.len(),
            plan.plan().fits(),
            deltas@.len() == i,
            forall|k: int| 0 <= k < i ==> #[trigger] deltas@[k] == delta_of(*op, plan.plan(), k),
            end == shared_end(*op, plan.groups@, i as int),
        decreases plan.groups.len() - i,
    {
        let g = plan.groups[i];
        proof {
            lemma_small(plan.plan(), *op, i as int);
            assert(plan.plan().groups[i as int].valid());
            assert(0 < plan.plan().groups[i as int].count && plan.plan().groups[i as int].first
                + plan.plan().groups[i as int].count <= plan.plan().fresh);
            lemma_up(end as nat, g.align as nat);
            lemma_part(*op, g);
        }
        if check_mentions(op, &g) {
            let rem: u32 = end % g.align;
            assert(rem <= end && rem < g.align) by (nonlinear_arith)
                requires
                    rem == end % g.align,
                    g.align > 0,
            ;
            let start: u32 = if rem == 0 {
                end
            } else {
                end - rem + g.align
            };
            let (first, len) = find_part(op, &g);
            deltas.push(Some(plan.fresh + 1 + start - first));
            end = start + len;
        } else {
            deltas.push(None);
        }
        i = i + 1;
    }
    proof {
        lemma_small(plan.plan(), *op, i as int);
    }
    (deltas, end)
}

/// How far the registers that stand for those of a group are from them, if an operation names
/// one of them.
spec fn delta_of(op: Op, plan: Plan, i: int) -> Option<u32> {
    if mentions(op, plan.groups[i]) {
        Some(
            (plan.fresh + 1 + shared_at(op, plan.groups, i) - part_start(
                op,
                plan.groups[i],
            )) as u32,
        )
    } else {
        None
    }
}

spec fn deltas_of(deltas: Seq<Option<u32>>, op: Op, plan: Plan) -> bool {
    &&& deltas.len() == plan.groups.len()
    &&& forall|i: int| 0 <= i < deltas.len() ==> #[trigger] deltas[i] == delta_of(op, plan, i)
}

/// The slot of a register, if it moved, and the register that stands for it.
fn find_slot(
    plan: &SpillPlan,
    deltas: &Vec<Option<u32>>,
    id: u32,
    Ghost(op): Ghost<Op>,
) -> (r: Option<(u16, u32)>)
    requires
        plan.plan().fits(),
        deltas_of(deltas@, op, plan.plan()),
        names(op, id),
    ensures
        match r {
            Some((offset, temp)) => {
                &&& plan.plan().slot(id) is Some
                &&& offset == plan.plan().offset(id)
                &&& VReg(temp) == plan.plan().temp(op, id)
            },
            None => plan.plan().slot(id) is None && plan.plan().temp(op, id) == VReg(id),
        },
{
    let ghost p = plan.plan();
    let ghost len = plan.groups@.len() as int;
    let mut i: usize = plan.groups.len();
    let mut slots: u32 = 0;
    let mut k: usize = 0;
    while k < plan.groups.len()
        invariant
            k <= plan.groups.len(),
            plan.plan().fits(),
            slots == slots_before(plan.groups@, k as int),
        decreases plan.groups.len() - k,
    {
        proof {
            lemma_small(plan.plan(), op, k + 1);
        }
        slots = slots + plan.groups[k].count;
        k = k + 1;
    }
    while i > 0
        invariant
            i <= plan.groups.len(),
            p == plan.plan(),
            p.fits(),
            len == plan.groups@.len(),
            deltas_of(deltas@, op, p),
            names(op, id),
            slots == slots_before(plan.groups@, i as int),
            slot_in(p.groups, len, id) == slot_in(p.groups, i as int, id),
            stand_in(op, p.groups, len, p.fresh + 1, id) == stand_in(
                op,
                p.groups,
                i as int,
                p.fresh + 1,
                id,
            ),
        decreases i,
    {
        i = i - 1;
        let g = plan.groups[i];
        assert(p.groups[i as int].valid());
        slots = slots - g.count;
        if g.first <= id && id < g.first + g.count {
            let slot: u32 = slots + (id - g.first);
            proof {
                lemma_small(p, op, i as int);
                lemma_small(p, op, i + 1);
                let total = slots_before(p.groups, len);
                assert(slot < total);
                assert(slot * p.stride < total * p.stride) by (nonlinear_arith)
                    requires
                        slot < total,
                        p.stride >= 4,
                ;
                lemma_mentions(op, g, id);
                assert(deltas@[i as int] == delta_of(op, p, i as int));
                assert(0 < p.groups[i as int].count && p.groups[i as int].first
                    + p.groups[i as int].count <= p.fresh);
                lemma_part(op, g);
            }
            let offset: u32 = plan.lds + slot * plan.stride;
            let delta: u32 = match deltas[i] {
                Some(d) => d,
                None => 0,
            };
            return Some((offset as u16, id + delta));
        }
    }
    None
}

/// The numbers of the registers of a group.
fn group_ids(g: &Group) -> (r: HashSet<u32>)
    requires
        g.valid(),
    ensures
        r@ == ids_of(*g),
{
    let mut set: HashSet<u32> = HashSet::new();
    let mut k: u32 = 0;
    while k < g.count
        invariant
            k <= g.count,
            g.valid(),
            forall|id: u32| #[trigger] set@.contains(id) <==> g.first <= id < g.first + k,
        decreases g.count - k,
    {
        set.insert(g.first + k);
        k = k + 1;
    }
    assert(set@ =~= ids_of(*g));
    set
}

/// An operation on the registers that stand for those that moved.
fn move_op(op: &Op, plan: &SpillPlan, deltas: &Vec<Option<u32>>) -> (r: Op)
    requires
        plan.plan().fits(),
        deltas_of(deltas@, *op, plan.plan()),
    ensures
        r == moved_op(*op, plan.plan(), plan.groups@.len() as int),
{
    let ghost p = plan.plan();
    let mut cur: Op = op.clone();
    let mut i: usize = 0;
    while i < plan.groups.len()
        invariant
            i <= plan.groups.len(),
            p == plan.plan(),
            p.fits(),
            deltas_of(deltas@, *op, p),
            cur == moved_op(*op, p, i as int),
        decreases plan.groups.len() - i,
    {
        assert(deltas@[i as int] == delta_of(*op, p, i as int));
        if let Some(delta) = deltas[i] {
            let g = plan.groups[i];
            proof {
                lemma_small(p, *op, i as int);
                assert(p.groups[i as int].valid());
                assert(0 < p.groups[i as int].count && p.groups[i as int].first
                    + p.groups[i as int].count <= p.fresh);
                lemma_part(*op, g);
            }
            let ids = group_ids(&g);
            assert forall|id: u32| #[trigger] ids@.contains(id) implies id + delta <= u32::MAX by {
                assert(g.has(id));
            }
            cur = rename_op_vregs(&cur, delta, &ids);
        }
        i = i + 1;
    }
    cur
}

/// The stores of those of the registers that moved, or the loads.
fn push_accesses(
    regs: &Vec<VReg>,
    plan: &SpillPlan,
    deltas: &Vec<Option<u32>>,
    load: bool,
    Ghost(op): Ghost<Op>,
) -> (r: Vec<Op>)
    requires
        plan.plan().fits(),
        deltas_of(deltas@, op, plan.plan()),
        forall|i: int| 0 <= i < regs@.len() ==> names(op, (#[trigger] regs@[i]).0),
    ensures
        load ==> r@ == reloads(regs@, op, plan.plan()),
        !load ==> r@ == stores(regs@, op, plan.plan()),
{
    let ghost p = plan.plan();
    let mut out: Vec<Op> = Vec::new();
    let mut k: usize = 0;
    while k < regs.len()
        invariant
            k <= regs.len(),
            p == plan.plan(),
            p.fits(),
            deltas_of(deltas@, op, p),
            forall|i: int| 0 <= i < regs@.len() ==> names(op, (#[trigger] regs@[i]).0),
            load ==> out@ == reloads(regs@.take(k as int), op, p),
            !load ==> out@ == stores(regs@.take(k as int), op, p),
        decreases regs.len() - k,
    {
        let id: u32 = regs[k].0;
        assert(names(op, regs@[k as int].0));
        proof {
            assert(regs@.take(k + 1).drop_last() =~= regs@.take(k as int));
            assert(regs@.take(k + 1).last() == regs@[k as int]);
        }
        match find_slot(plan, deltas, id, Ghost(op)) {
            Some((offset, temp)) => {
                if load {
                    out.push(
                        OpOf::DsLoadB32 { dst: VReg(temp), vaddr: VReg(plan.fresh), offset },
                    );
                } else {
                    out.push(
                        OpOf::DsStoreB32 { vaddr: VReg(plan.fresh), src: VReg(temp), offset },
                    );
                }
            },
            None => {},
        }
        k = k + 1;
    }
    assert(regs@.take(k as int) =~= regs@);
    out
}

/// Whether registers are those that stand for others.
fn check_temps(
    to: &Vec<VReg>,
    regs: &Vec<VReg>,
    plan: &SpillPlan,
    deltas: &Vec<Option<u32>>,
    Ghost(op): Ghost<Op>,
) -> (r: bool)
    requires
        plan.plan().fits(),
        deltas_of(deltas@, op, plan.plan()),
        forall|i: int| 0 <= i < regs@.len() ==> names(op, (#[trigger] regs@[i]).0),
    ensures
        r == (to@ == temps(regs@, op, plan.plan())),
{
    let ghost p = plan.plan();
    let ghost want = temps(regs@, op, p);
    if to.len() != regs.len() {
        assert(want.len() == regs@.len());
        return false;
    }
    let mut k: usize = 0;
    while k < regs.len()
        invariant
            k <= regs.len() == to.len(),
            p == plan.plan(),
            p.fits(),
            want == temps(regs@, op, p),
            deltas_of(deltas@, op, p),
            forall|i: int| 0 <= i < regs@.len() ==> names(op, (#[trigger] regs@[i]).0),
            forall|j: int| 0 <= j < k ==> #[trigger] to@[j] == want[j],
        decreases regs.len() - k,
    {
        assert(names(op, regs@[k as int].0));
        let id: u32 = match find_slot(plan, deltas, regs[k].0, Ghost(op)) {
            Some((_offset, temp)) => temp,
            None => regs[k].0,
        };
        assert(want[k as int] == VReg(id));
        if to[k] != VReg(id) {
            return false;
        }
        k = k + 1;
    }
    assert(to@ =~= want);
    true
}

/// Appends an operation with its loads and stores, unless it cannot work on the registers that
/// stand for its own. Also how many shared registers it takes.
fn spill_op(out: &mut Vec<Op>, op: &Op, plan: &SpillPlan) -> (r: Option<u32>)
    requires
        plan.plan().fits(),
    ensures
        match r {
            Some(end) => {
                &&& moves_whole(*op, plan.plan())
                &&& final(out)@ == old(out)@ + spilled_op(*op, plan.plan())
                &&& end == shared_end(*op, plan.groups@, plan.groups@.len() as int)
                &&& end <= 0x2_0000
            },
            None => !moves_whole(*op, plan.plan()),
        },
{
    let (deltas, end) = find_shared(op, plan);
    let to: Op = move_op(op, plan, &deltas);
    proof {
        lemma_refs_named(*op);
    }
    let uses = op.vreg_uses();
    let defs = op.vreg_defs();
    if !check_temps(&to.vreg_uses(), &uses, plan, &deltas, Ghost(*op)) || !check_temps(
        &to.vreg_defs(),
        &defs,
        plan,
        &deltas,
        Ghost(*op),
    ) {
        return None;
    }
    let ghost p = plan.plan();
    let ghost before = out@;
    let mut loads = push_accesses(&uses, plan, &deltas, true, Ghost(*op));
    let mut stored = push_accesses(&defs, plan, &deltas, false, Ghost(*op));
    let ghost loads_seq = loads@;
    let ghost stored_seq = stored@;
    let any: bool = loads.len() > 0;
    out.append(&mut loads);
    if any {
        out.push(OpOf::WaitLgkmcnt(0));
    }
    assert(out@ =~= before + loads_seq + wait_behind(loads_seq));
    out.push(to);
    let ghost middle = out@;
    if stored.len() > 0 {
        match op_latency(op).wait_counter {
            Some(WaitCounter::LGKMcnt) => {
                out.push(OpOf::WaitLgkmcnt(0));
            },
            Some(_) => {
                out.push(OpOf::WaitVmcnt(0));
            },
            None => {
                if matches!(op, OpOf::DsSwizzle { .. }) {
                    out.push(OpOf::WaitLgkmcnt(0));
                }
            },
        }
    }
    assert(out@ =~= middle + wait_for(*op, stored_seq));
    out.append(&mut stored);
    assert(out@ =~= before + spilled_op(*op, p));
    Some(end)
}

/// The operations with loads and stores, and how many shared registers they take, unless one
/// of them cannot work on the registers that stand for its own.
fn spill_ops(ops: &Vec<Op>, plan: &SpillPlan) -> (r: Option<(Vec<Op>, u32)>)
    requires
        plan.plan().fits(),
    ensures
        match r {
            Some((out, count)) => {
                &&& forall|i: int|
                    0 <= i < ops@.len() ==> moves_whole(#[trigger] ops@[i], plan.plan())
                &&& out@ == spilled(ops@, plan.plan())
                &&& count == shared_count(ops@, plan.plan(), ops@.len() as int)
                &&& count <= 0x2_0000
            },
            None => exists|i: int|
                0 <= i < ops@.len() && !moves_whole(#[trigger] ops@[i], plan.plan()),
        },
{
    let ghost p = plan.plan();
    let mut out: Vec<Op> = Vec::new();
    let first: Op = OpOf::VLshlrevB32 { dst: VReg(plan.fresh), shift: 2u8, src: VReg(0) };
    let ghost head = seq![first];
    out.push(first);
    let mut count: u32 = 0;
    let mut i: usize = 0;
    assert(out@ =~= head + spilled_from(ops@, p, 0));
    while i < ops.len()
        invariant
            i <= ops.len(),
            p == plan.plan(),
            p.fits(),
            forall|k: int| 0 <= k < i ==> moves_whole(#[trigger] ops@[k], p),
            out@ == head + spilled_from(ops@, p, i as int),
            count == shared_count(ops@, p, i as int),
            count <= 0x2_0000,
        decreases ops.len() - i,
    {
        match spill_op(&mut out, &ops[i], plan) {
            None => {
                assert(!moves_whole(ops@[i as int], p));
                return None;
            },
            Some(end) => {
                if end > count {
                    count = end;
                }
            },
        }
        i = i + 1;
        assert(out@ =~= head + spilled_from(ops@, p, i as int));
    }
    Some((out, count))
}

// ── Placing what is left ──
/// Those of the declarations that were not chosen.
fn find_staying(allocs: &Vec<VRegAlloc>, chosen: &Vec<usize>) -> (r: Vec<VRegAlloc>)
    ensures
        r@ == staying(allocs@, ints(chosen@), allocs@.len() as int),
{
    let mut out: Vec<VRegAlloc> = Vec::new();
    let mut i: usize = 0;
    while i < allocs.len()
        invariant
            i <= allocs.len(),
            out@ == staying(allocs@, ints(chosen@), i as int),
        decreases allocs.len() - i,
    {
        if !has_index(chosen, i) {
            out.push(allocs[i]);
        }
        i = i + 1;
    }
    out
}

/// Whether the registers of a group that have a place have consecutive places.
pub(crate) fn check_group_kept(ra: &RegAlloc, g: &CoalescedGroup) -> (r: bool)
    ensures
        r == group_kept(*ra, *g),
{
    let ghost one = seq![*g];
    let first: u32 = g.base_vreg.0;
    let ghost map = ra.vgpr_map@;
    let mut found: Option<(u32, u8)> = None;
    let mut k: u32 = 0;
    while k < g.count && k <= u32::MAX - first
        invariant
            k <= g.count,
            first == g.base_vreg.0,
            one == seq![*g],
            map == ra.vgpr_map@,
            first + k <= u32::MAX + 1,
            match found {
                Some((id, place)) => {
                    &&& first <= id < first + k
                    &&& map.contains_key(id)
                    &&& map[id] == place
                    &&& forall|a: u32|
                        first <= a < first + k && #[trigger] map.contains_key(a) ==> map[a] - place
                            == a - id
                },
                None => forall|a: u32|
                    first <= a < first + k ==> !#[trigger] map.contains_key(a),
            },
        ensures
            first + k <= u32::MAX + 1,
            k <= g.count,
            k == g.count || first + k == u32::MAX + 1,
            match found {
                Some((id, place)) => {
                    &&& first <= id < first + k
                    &&& map.contains_key(id)
                    &&& map[id] == place
                    &&& forall|a: u32|
                        first <= a < first + k && #[trigger] map.contains_key(a) ==> map[a] - place
                            == a - id
                },
                None => forall|a: u32|
                    first <= a < first + k ==> !#[trigger] map.contains_key(a),
            },
        decreases g.count - k,
    {
        let id: u32 = first + k;
        match ra.vgpr_map.get(&id) {
            Some(place) => match found {
                Some((b, at)) => {
                    if id - b > 255 || *place < at || (*place - at) as u32 != id - b {
                        proof {
                            assert(one[0] == *g);
                            assert(in_group(one, id) && in_group(one, b));
                            assert(map.contains_key(id) && map.contains_key(b));
                            assert(map[id] - map[b] != id - b);
                        }
                        return false;
                    }
                },
                None => {
                    found = Some((id, *place));
                },
            },
            None => {},
        }
        k = k + 1;
    }
    assert forall|a: u32, b: u32|
        in_group(one, a) && in_group(one, b) && #[trigger] map.contains_key(a)
            && #[trigger] map.contains_key(b) implies map[a] - map[b] == a - b by {
        assert(one[0] == *g);
        assert(first <= a < first + k && first <= b < first + k);
    }
    true
}

/// Whether all groups that have to stay consecutive do, and if not, the first that does not.
pub(crate) fn find_scattered(ra: &RegAlloc, groups: &[CoalescedGroup]) -> (r: Option<usize>)
    ensures
        match r {
            Some(i) => i < groups@.len() && !group_kept(*ra, groups@[i as int]) && forall|j: int|
                0 <= j < i ==> group_kept(*ra, #[trigger] groups@[j]),
            None => groups_kept(*ra, groups@),
        },
{
    let mut i: usize = 0;
    while i < groups.len()
        invariant
            i <= groups.len(),
            forall|j: int| 0 <= j < i ==> group_kept(*ra, #[trigger] groups@[j]),
        decreases groups.len() - i,
    {
        if !check_group_kept(ra, &groups[i]) {
            return Some(i);
        }
        i = i + 1;
    }
    None
}

/// Whether every operation can be written down.
pub(crate) fn check_encodable(ops: &Vec<Op>, ra: &RegAlloc) -> (r: bool)
    ensures
        r == all_encodable(ops@, *ra),
{
    let mut i: usize = 0;
    while i < ops.len()
        invariant
            i <= ops.len(),
            forall|k: int| 0 <= k < i ==> encodable(#[trigger] ops@[k], *ra),
        decreases ops.len() - i,
    {
        if !is_encodable(&ops[i], ra) {
            return false;
        }
        i = i + 1;
    }
    true
}

/// What can be written down depends on the places alone.
#[verifier::spinoff_prover]
proof fn lemma_encodable_alike(op: Op, a: RegAlloc, b: RegAlloc)
    requires
        a.vgpr_map@ == b.vgpr_map@,
        a.sgpr_map@ == b.sgpr_map@,
        encodable(op, a),
    ensures
        encodable(op, b),
{
    assert(forall|v: VReg| #[trigger] a.has_v(v) == b.has_v(v));
    assert(forall|v: VReg| #[trigger] a.v(v) == b.v(v));
    assert(forall|s: crate::ir::SReg| #[trigger] a.has_s(s) == b.has_s(s));
    assert(forall|s: crate::ir::SReg| #[trigger] a.s(s) == b.s(s));
    assert forall|v: VReg, n: nat| #[trigger] vrange_placed(v, n, a) implies vrange_placed(
        v,
        n,
        b,
    ) by {}
    assert forall|s: crate::ir::SReg, n: nat| #[trigger]
        srange_placed(s, n, a) implies srange_placed(s, n, b) by {}
}

/// Two placements of what is left are alike.
proof fn lemma_placed_alike(s: Source, n: nat, a: RegAlloc, b: RegAlloc)
    requires
        s.placed_with(n, a),
        shared_allocation_of(
            b,
            v_groups(spill_allocs(s.allocs, s.chosen(n), s.ops, s.plan(n))),
            s_groups(s.sregs),
            s.ops_with(n),
        ),
    ensures
        s.placed_with(n, b),
{
    let ops = s.ops_with(n);
    shared_allocation_is_unique(
        a,
        b,
        v_groups(spill_allocs(s.allocs, s.chosen(n), s.ops, s.plan(n))),
        s_groups(s.sregs),
        ops,
    );
    assert forall|i: int| 0 <= i < ops.len() implies encodable(#[trigger] ops[i], b) by {
        assert(encodable(ops[i], a));
        lemma_encodable_alike(ops[i], a, b);
    }
    assert forall|i: int| 0 <= i < s.fixed.len() implies group_kept(b, #[trigger] s.fixed[i]) by {
        assert(group_kept(a, s.fixed[i]));
    }
}

/// A kernel with spilled registers.
pub(crate) struct Spilled {
    pub ops: Vec<Op>,
    pub alloc: RegAlloc,
    pub bytes: u32,
}

/// Moves up to `n` groups, if that can be done and what is left fits.
fn try_spill(
    ops: &Vec<Op>,
    allocs: &Vec<VRegAlloc>,
    sregs: &Vec<SRegAlloc>,
    fixed: &[CoalescedGroup],
    chosen: &Vec<usize>,
    groups: &Vec<Group>,
    max_v: u32,
    next: u32,
    lds: u32,
    wg: u32,
    Ghost(s): Ghost<Source>,
    Ghost(n): Ghost<nat>,
) -> (r: Option<Spilled>)
    requires
        s == (Source {
            ops: ops@,
            allocs: allocs@,
            sregs: sregs@,
            fixed: fixed@,
            next: next as nat,
            lds,
            wg,
        }),
        s.wf(),
        groups@ == v_groups(allocs@),
        ints(chosen@) == s.chosen(n),
        forall|k: int| 0 <= k < chosen@.len() ==> #[trigger] chosen@[k] < groups@.len(),
        max_v == max_vreg(ops@),
        !unreadable(ops@),
    ensures
        match r {
            Some(l) => {
                &&& s.fits_with(n)
                &&& l.ops@ == s.ops_with(n)
                &&& s.placed_with(n, l.alloc)
                &&& l.bytes == s.plan(n).bytes()
                &&& lds + l.bytes <= LDS_END
            },
            None => !s.fits_with(n),
        },
{
    proof {
        lemma_v_groups_valid(allocs@, next as nat);
        lemma_moving_valid(ops@, groups@, fixed@, n);
    }
    let ghost p = s.plan(n);
    if chosen.len() == 0 {
        assert(p.groups.len() == 0);
        return None;
    }
    let top: u32 = u32::MAX - ID_ROOM;
    if max_v >= top || next > top || wg == 0 || wg > LDS_END || lds > LDS_END || lds % 4 != 0 {
        proof {
            if wg > LDS_END {
                lemma_some_slots(p.groups);
                let total = slots_before(p.groups, p.groups.len() as int);
                assert(total * (4 * wg) >= 4 * wg) by (nonlinear_arith)
                    requires
                        total >= 1,
                        wg >= 0,
                ;
            }
        }
        return None;
    }
    let fresh: u32 = if max_v >= next {
        max_v + 1
    } else {
        next
    };
    let stride: u32 = 4 * wg;
    let mut moving: Vec<Group> = Vec::new();
    let mut slots: u32 = 0;
    let mut k: usize = 0;
    while k < chosen.len()
        invariant
            k <= chosen.len(),
            groups@ == v_groups(allocs@),
            groups_valid(p.groups),
            p == s.plan(n),
            s.allocs == allocs@,
            ints(chosen@) == s.chosen(n),
            forall|j: int| 0 <= j < chosen@.len() ==> #[trigger] chosen@[j] < groups@.len(),
            p.groups.len() == chosen@.len(),
            moving@ == p.groups.take(k as int),
            slots == slots_before(p.groups, k as int),
            slots <= 0x4000,
            p.stride >= 4,
            forall|i: int| 0 <= i < p.groups.len() ==> 0 < (#[trigger] p.groups[i]).count,
        decreases chosen.len() - k,
    {
        let g = groups[chosen[k]];
        proof {
            assert(ints(chosen@)[k as int] == chosen@[k as int] as int);
            assert(p.groups[k as int] == g);
            lemma_slots_grow(p.groups, k + 1, p.groups.len() as int);
        }
        if g.count > 0x4000 - slots {
            proof {
                let total = slots_before(p.groups, p.groups.len() as int);
                assert(total > 0x4000);
                assert(total * p.stride > 0x1_0000) by (nonlinear_arith)
                    requires
                        total > 0x4000,
                        p.stride >= 4,
                ;
            }
            return None;
        }
        slots = slots + g.count;
        moving.push(g);
        k = k + 1;
        assert(moving@ =~= p.groups.take(k as int));
    }
    assert(moving@ =~= p.groups);
    assert(0 <= slots * stride <= 0x4000 * 0x4_0000) by (nonlinear_arith)
        requires
            0 <= slots <= 0x4000,
            0 <= stride <= 0x4_0000,
    ;
    let bytes64: u64 = slots as u64 * stride as u64;
    if bytes64 > (LDS_END - lds) as u64 {
        return None;
    }
    let bytes: u32 = bytes64 as u32;
    let plan = SpillPlan { groups: moving, fresh, lds, stride };
    assert(plan.plan() == p);
    proof {
        assert forall|i: int| 0 <= i < p.groups.len() implies 0 < (#[trigger] p.groups[i]).count
            && p.groups[i].first + p.groups[i].count <= p.fresh by {
            let j = s.chosen(n)[i];
            assert(ints(chosen@)[i] == chosen@[i] as int);
            assert(p.groups[i] == v_group(allocs@[j]));
            assert(allocs@[j].vreg.0 + allocs@[j].count <= next);
        }
        assert(p.fits());
    }
    let (out, count): (Vec<Op>, u32) = match spill_ops(ops, &plan) {
        None => {
            return None;
        },
        Some(pair) => pair,
    };
    if out.len() > MAX_OPS {
        return None;
    }
    let mut rest = find_staying(allocs, chosen);
    rest.push(VRegAlloc { vreg: VReg(fresh), count: 1, alignment: Alignment::Align1 });
    rest.push(VRegAlloc { vreg: VReg(fresh + 1), count, alignment: Alignment::Align8 });
    proof {
        assert(rest@ == spill_allocs(s.allocs, s.chosen(n), s.ops, p));
        lemma_staying_ordered(allocs@, s.chosen(n), allocs@.len() as int, next as nat);
        let stays = staying(allocs@, s.chosen(n), allocs@.len() as int);
        let end = (fresh + 1 + count) as nat;
        assert(vregs_ordered(rest@, end)) by {
            assert forall|i: int| 0 <= i < rest@.len() implies 1 <= (#[trigger] rest@[i]).vreg.0
                && rest@[i].vreg.0 + rest@[i].count <= end by {
                if i < stays.len() {
                    assert(rest@[i] == stays[i]);
                }
            }
            assert forall|i: int, j: int| 0 <= i < j < rest@.len() implies (
            #[trigger] rest@[i]).vreg.0 + rest@[i].count <= (#[trigger] rest@[j]).vreg.0 by {
                if i < stays.len() {
                    assert(rest@[i] == stays[i]);
                    if j < stays.len() {
                        assert(rest@[j] == stays[j]);
                    }
                }
            }
        }
        lemma_v_groups_valid(rest@, end);
    }
    match allocate_sharing(&rest, sregs, out.as_slice()) {
        Err(e) => {
            proof {
                assert forall|ra: RegAlloc| !#[trigger] s.placed_with(n, ra) by {}
            }
            None
        },
        Ok(ra) => {
            let scattered: bool = find_scattered(&ra, fixed).is_some();
            if scattered || !check_encodable(&out, &ra) {
                proof {
                    assert forall|b: RegAlloc| !#[trigger] s.placed_with(n, b) by {
                        if s.placed_with(n, b) {
                            lemma_placed_alike(s, n, b, ra);
                        }
                    }
                }
                return None;
            }
            assert(s.placed_with(n, ra));
            Some(Spilled { ops: out, alloc: ra, bytes })
        },
    }
}

proof fn lemma_slots_grow(groups: Seq<Group>, m: int, n: int)
    requires
        0 <= m <= n,
    ensures
        slots_before(groups, m) <= slots_before(groups, n),
    decreases n - m,
{
    if m < n {
        lemma_slots_grow(groups, m, n - 1);
    }
}

proof fn lemma_some_slots(groups: Seq<Group>)
    requires
        groups.len() > 0,
        forall|i: int| 0 <= i < groups.len() ==> 0 < (#[trigger] groups[i]).count,
    ensures
        slots_before(groups, groups.len() as int) >= 1,
{
    lemma_slots_grow(groups, 1, groups.len() as int);
    assert(slots_before(groups, 1) == slots_before(groups, 0) + groups[0].count as nat);
    assert(0 < groups[0].count);
}

/// Moves groups of registers to the local data share, as many as it takes.
pub(crate) fn spill(
    ops: &Vec<Op>,
    allocs: &Vec<VRegAlloc>,
    sregs: &Vec<SRegAlloc>,
    fixed: &[CoalescedGroup],
    next: u32,
    lds: u32,
    wg: u32,
) -> (r: Option<Spilled>)
    requires
        (Source {
            ops: ops@,
            allocs: allocs@,
            sregs: sregs@,
            fixed: fixed@,
            next: next as nat,
            lds,
            wg,
        }).wf(),
    ensures
        ({
            let s = Source {
                ops: ops@,
                allocs: allocs@,
                sregs: sregs@,
                fixed: fixed@,
                next: next as nat,
                lds,
                wg,
            };
            match (r, s.count_from(1)) {
                (Some(l), Some(n)) => {
                    &&& l.ops@ == s.ops_with(n)
                    &&& s.placed_with(n, l.alloc)
                    &&& l.bytes == s.plan(n).bytes()
                    &&& lds + l.bytes <= LDS_END
                },
                (None, None) => true,
                _ => false,
            }
        }),
{
    let ghost s = Source {
        ops: ops@,
        allocs: allocs@,
        sregs: sregs@,
        fixed: fixed@,
        next: next as nat,
        lds,
        wg,
    };
    let mut raw: bool = false;
    let mut k: usize = 0;
    while k < ops.len()
        invariant
            k <= ops.len(),
            raw == exists|x: int| 0 <= x < k && #[trigger] ops@[x] is RawAsm,
        decreases ops.len() - k,
    {
        if matches!(&ops[k], OpOf::RawAsm(_)) {
            raw = true;
        }
        k = k + 1;
    }
    if raw {
        proof {
            assert(unreadable(ops@));
            lemma_unreadable(s, 1);
        }
        return None;
    }
    let groups = v_group_vec(allocs);
    proof {
        lemma_v_groups_valid(allocs@, next as nat);
    }
    let found = find_lives(ops.as_slice(), &groups);
    let counts = count_mentions(ops, &groups);
    let has_masks: bool = check_masked(ops);
    let mut movable: Vec<bool> = Vec::new();
    let mut g: usize = 0;
    while g < groups.len()
        invariant
            g <= groups.len(),
            groups_valid(groups@),
            has_masks == masked(ops@),
            movable@.len() == g,
            forall|i: int|
                0 <= i < g ==> #[trigger] movable@[i] == may_move(ops@, groups@[i], fixed@),
        decreases groups.len() - g,
    {
        assert(groups@[g as int].valid());
        let moves: bool = check_may_move(ops, &groups[g], fixed, has_masks);
        movable.push(moves);
        g = g + 1;
    }
    let max_v: u32 = max_vreg_in_ops(ops.as_slice());
    let mut n: usize = 1;
    loop
        invariant
            n >= 1,
            s == (Source {
                ops: ops@,
                allocs: allocs@,
                sregs: sregs@,
                fixed: fixed@,
                next: next as nat,
                lds,
                wg,
            }),
            s.wf(),
            !unreadable(ops@),
            groups@ == v_groups(allocs@),
            groups_valid(groups@),
            lives_found(found@, lives_of(ops@, groups@), ops@.len()),
            counts@.len() == groups@.len(),
            forall|x: int|
                0 <= x < groups@.len() ==> #[trigger] counts@[x] == mention_count(
                    ops@,
                    groups@[x],
                    ops@.len() as int,
                ),
            movable@.len() == groups@.len(),
            forall|i: int|
                0 <= i < groups@.len() ==> #[trigger] movable@[i] == may_move(
                    ops@,
                    groups@[i],
                    fixed@,
                ),
            max_v == max_vreg(ops@),
            s.count_from(1) == s.count_from(n as nat),
        decreases
                if n < allocs@.len() {
                    allocs@.len() - n
                } else {
                    0
                },
    {
        let chosen = choose_groups(&groups, &found, &counts, &movable, ops, fixed, n);
        match try_spill(
            ops,
            allocs,
            sregs,
            fixed,
            &chosen,
            &groups,
            max_v,
            next,
            lds,
            wg,
            Ghost(s),
            Ghost(n as nat),
        ) {
            Some(l) => {
                return Some(l);
            },
            None => {},
        }
        if n >= allocs.len() {
            return None;
        }
        n = if n <= allocs.len() / 2 {
            2 * n
        } else {
            allocs.len()
        };
    }
}

/// The number that is found fits.
pub proof fn lemma_count_fits(s: Source, n: nat)
    ensures
        s.count_from(n) matches Some(m) ==> s.fits_with(m),
    decreases
            if n < s.allocs.len() {
                s.allocs.len() - n
            } else {
                0
            },
{
    if !s.fits_with(n) && n > 0 && n < s.allocs.len() {
        lemma_count_fits(s, s.next_count(n));
    }
}

proof fn lemma_unreadable(s: Source, n: nat)
    requires
        unreadable(s.ops),
    ensures
        s.count_from(n) is None,
    decreases
            if n < s.allocs.len() {
                s.allocs.len() - n
            } else {
                0
            },
{
    if n > 0 && n < s.allocs.len() {
        lemma_unreadable(s, s.next_count(n));
    }
}

// ── What spilling keeps ──
/// A slot is one of the slots, and it is some group's.
proof fn lemma_slot(groups: Seq<Group>, n: int, id: u32)
    requires
        0 <= n <= groups.len(),
    ensures
        slot_in(groups, n, id) matches Some(s) ==> s < slots_before(groups, n),
    decreases n,
{
    if n > 0 {
        lemma_slot(groups, n - 1, id);
    }
}

/// Two registers have two slots.
proof fn lemma_slots_differ(groups: Seq<Group>, n: int, a: u32, b: u32)
    requires
        0 <= n <= groups.len(),
        a != b,
        slot_in(groups, n, a) is Some,
        slot_in(groups, n, b) is Some,
    ensures
        slot_in(groups, n, a) != slot_in(groups, n, b),
    decreases n,
{
    if n > 0 {
        lemma_slot(groups, n - 1, a);
        lemma_slot(groups, n - 1, b);
        if !groups[n - 1].has(a) && !groups[n - 1].has(b) {
            lemma_slots_differ(groups, n - 1, a, b);
        }
    }
}

/// The slots of different registers or threads do not meet, nor do they meet the kernel's own
/// part of the local data share, and they lie within its new size.
pub proof fn slots_are_apart(plan: Plan, wg: nat, a: u32, s: nat, b: u32, t: nat)
    requires
        plan.fits(),
        plan.stride == 4 * wg,
        plan.slot(a) is Some,
        plan.slot(b) is Some,
        s < wg,
        t < wg,
        a != b || s != t,
    ensures
        plan.offset(a) + 4 * s + 4 <= plan.offset(b) + 4 * t || plan.offset(b) + 4 * t + 4
            <= plan.offset(a) + 4 * s,
        plan.lds <= plan.offset(a),
        plan.offset(a) + 4 * s + 4 <= plan.lds + plan.bytes(),
{
    let n = plan.groups.len() as int;
    lemma_slot(plan.groups, n, a);
    lemma_slot(plan.groups, n, b);
    if a != b {
        lemma_slots_differ(plan.groups, n, a, b);
    }
    let x = plan.slot(a)->0;
    let y = plan.slot(b)->0;
    let total = slots_before(plan.groups, n);
    let w = plan.stride;
    assert(x * w >= 0 && x * w + w <= total * w) by (nonlinear_arith)
        requires
            0 <= x < total,
            w >= 0,
    ;
    if x < y {
        assert(x * w + w <= y * w) by (nonlinear_arith)
            requires
                x < y,
                w >= 0,
        ;
    } else if y < x {
        assert(y * w + w <= x * w) by (nonlinear_arith)
            requires
                y < x,
                w >= 0,
        ;
    }
}

/// The registers that stand for those of the first groups are in front of the end of the
/// shared ones, and two registers have two of them.
proof fn lemma_stand_ins(op: Op, groups: Seq<Group>, n: int, base: nat, a: u32, b: u32)
    requires
        0 <= n <= groups.len(),
        groups_valid(groups),
        forall|i: int|
            0 <= i < groups.len() ==> 0 < (#[trigger] groups[i]).count && groups[i].first
                + groups[i].count <= base,
        a < base,
        b < base,
        names(op, a),
        names(op, b),
    ensures
        slot_in(groups, n, a) is Some ==> base <= stand_in(op, groups, n, base, a) < base
            + shared_end(op, groups, n),
        slot_in(groups, n, a) is None ==> stand_in(op, groups, n, base, a) == a,
        slot_in(groups, n, b) is Some ==> base <= stand_in(op, groups, n, base, b) < base
            + shared_end(op, groups, n),
        slot_in(groups, n, b) is None ==> stand_in(op, groups, n, base, b) == b,
        a != b ==> stand_in(op, groups, n, base, a) != stand_in(op, groups, n, base, b),
    decreases n,
{
    if n > 0 {
        lemma_stand_ins(op, groups, n - 1, base, a, b);
        let g = groups[n - 1];
        assert(g.valid());
        assert(0 < g.count);
        lemma_up(shared_end(op, groups, n - 1), g.align as nat);
        lemma_part(op, g);
        if g.has(a) {
            lemma_mentions(op, g, a);
        }
        if g.has(b) {
            lemma_mentions(op, g, b);
        }
    }
}

proof fn lemma_mentions(op: Op, g: Group, id: u32)
    requires
        names(op, id),
        g.has(id),
    ensures
        mentions(op, g),
{
    let refs = op_vreg_refs(op);
    let k = choose|k: int| 0 <= k < refs.len() && refs[k] == VReg(id);
    assert(g.has(refs[k].0));
}

/// Every register that an operation names has a number in front of the shared ones.
pub proof fn shared_numbers_are_free(s: Source, n: nat, i: int, id: u32)
    requires
        0 <= i < s.ops.len(),
        names(s.ops[i], id),
    ensures
        id < s.plan(n).fresh,
{
    let refs = op_vreg_refs(s.ops[i]);
    let k = choose|k: int| 0 <= k < refs.len() && refs[k] == VReg(id);
    max_vreg_is_largest(s.ops);
    assert(refs[k].0 <= max_vreg(s.ops));
}

/// Two registers that an operation names have two registers that stand for them: a register
/// that did not move itself, one that moved a shared one.
proof fn lemma_temps(plan: Plan, op: Op, a: u32, b: u32)
    requires
        plan.fits(),
        names(op, a),
        names(op, b),
        a < plan.fresh,
        b < plan.fresh,
    ensures
        plan.slot(a) is Some ==> plan.temp(op, a).0 > plan.fresh,
        plan.slot(a) is None ==> plan.temp(op, a) == VReg(a),
        a != b ==> plan.temp(op, a) != plan.temp(op, b),
{
    let n = plan.groups.len() as int;
    lemma_small(plan, op, n);
    assert forall|i: int| 0 <= i < plan.groups.len() implies 0 < (#[trigger] plan.groups[i]).count
        && plan.groups[i].first + plan.groups[i].count <= plan.fresh + 1 by {}
    lemma_stand_ins(op, plan.groups, n, plan.fresh + 1, a, b);
}

/// What a thread has: what the registers hold, and the slots.
pub struct Thread {
    pub regs: spec_fn(u32) -> u32,
    pub slots: spec_fn(nat) -> u32,
}

/// Whether a thread has what registers held before any of them moved: those that moved in
/// their slots, the others themselves.
pub open spec fn represents(plan: Plan, t: Thread, regs: spec_fn(u32) -> u32) -> bool {
    forall|id: u32|
        id < plan.fresh ==> #[trigger] regs(id) == match plan.slot(id) {
            Some(s) => (t.slots)(s),
            None => (t.regs)(id),
        }
}

/// What a thread has after loading those of some registers that moved.
pub open spec fn after_reloads(regs: Seq<VReg>, op: Op, plan: Plan, t: Thread) -> Thread
    decreases regs.len(),
{
    if regs.len() == 0 {
        t
    } else {
        let before = after_reloads(regs.drop_last(), op, plan, t);
        let id = regs.last().0;
        match plan.slot(id) {
            Some(s) => Thread {
                regs: |x: u32|
                    if VReg(x) == plan.temp(op, id) {
                        (before.slots)(s)
                    } else {
                        (before.regs)(x)
                    },
                slots: before.slots,
            },
            None => before,
        }
    }
}

/// What a thread has after storing those of some registers that moved.
pub open spec fn after_stores(regs: Seq<VReg>, op: Op, plan: Plan, t: Thread) -> Thread
    decreases regs.len(),
{
    if regs.len() == 0 {
        t
    } else {
        let before = after_stores(regs.drop_last(), op, plan, t);
        let id = regs.last().0;
        match plan.slot(id) {
            Some(s) => Thread {
                regs: before.regs,
                slots: |x: nat|
                    if x == s {
                        (before.regs)(plan.temp(op, id).0)
                    } else {
                        (before.slots)(x)
                    },
            },
            None => before,
        }
    }
}

proof fn lemma_reloaded(regs: Seq<VReg>, op: Op, plan: Plan, t: Thread, id: u32)
    requires
        plan.fits(),
        names(op, id),
        id < plan.fresh,
        forall|k: int|
            0 <= k < regs.len() ==> names(op, (#[trigger] regs[k]).0) && regs[k].0 < plan.fresh,
    ensures
        after_reloads(regs, op, plan, t).slots == t.slots,
        plan.slot(id) is None ==> (after_reloads(regs, op, plan, t).regs)(id) == (t.regs)(id),
        plan.slot(id) is Some && regs.contains(VReg(id)) ==> (after_reloads(
            regs,
            op,
            plan,
            t,
        ).regs)(plan.temp(op, id).0) == (t.slots)(plan.slot(id)->0),
    decreases regs.len(),
{
    if regs.len() > 0 {
        let init = regs.drop_last();
        let last = regs.last().0;
        assert forall|k: int| 0 <= k < init.len() implies names(op, (#[trigger] init[k]).0)
            && init[k].0 < plan.fresh by {
            assert(init[k] == regs[k]);
        }
        lemma_reloaded(init, op, plan, t, id);
        assert(regs[regs.len() - 1].0 == last);
        lemma_temps(plan, op, last, id);
        lemma_temps(plan, op, id, last);
        if regs.contains(VReg(id)) && last != id {
            let k = choose|k: int| 0 <= k < regs.len() && regs[k] == VReg(id);
            assert(init[k] == VReg(id));
        }
    }
}

proof fn lemma_stored(regs: Seq<VReg>, op: Op, plan: Plan, t: Thread, id: u32)
    requires
        plan.fits(),
        names(op, id) || !regs.contains(VReg(id)),
        id < plan.fresh,
        forall|k: int|
            0 <= k < regs.len() ==> names(op, (#[trigger] regs[k]).0) && regs[k].0 < plan.fresh,
    ensures
        after_stores(regs, op, plan, t).regs == t.regs,
        plan.slot(id) matches Some(s) ==> (after_stores(regs, op, plan, t).slots)(s)
            == if regs.contains(VReg(id)) {
            (t.regs)(plan.temp(op, id).0)
        } else {
            (t.slots)(s)
        },
    decreases regs.len(),
{
    if regs.len() > 0 {
        let init = regs.drop_last();
        let last = regs.last().0;
        assert forall|k: int| 0 <= k < init.len() implies names(op, (#[trigger] init[k]).0)
            && init[k].0 < plan.fresh by {
            assert(init[k] == regs[k]);
        }
        if init.contains(VReg(id)) {
            let k = choose|k: int| 0 <= k < init.len() && init[k] == VReg(id);
            assert(regs[k] == VReg(id));
        }
        lemma_stored(init, op, plan, t, id);
        assert(regs[regs.len() - 1].0 == last);
        if last == id {
            assert(regs[regs.len() - 1] == VReg(id));
        } else {
            if plan.slot(last) is Some && plan.slot(id) is Some {
                lemma_slots_differ(plan.groups, plan.groups.len() as int, last, id);
            }
            if regs.contains(VReg(id)) {
                let k = choose|k: int| 0 <= k < regs.len() && regs[k] == VReg(id);
                assert(init[k] == VReg(id));
            }
        }
    }
}

/// An operation with its loads in front of it reads what it read before registers moved: where
/// a thread has what the registers held, each register that it reads is worth, after the
/// loads, what the register held that it stands for.
pub proof fn spilled_operations_read_the_same(
    op: Op,
    plan: Plan,
    t: Thread,
    regs: spec_fn(u32) -> u32,
    k: int,
)
    requires
        plan.fits(),
        moves_whole(op, plan),
        represents(plan, t, regs),
        forall|id: u32| #[trigger] names(op, id) ==> id < plan.fresh,
        0 <= k < op_vreg_uses(op).len(),
    ensures
        ({
            let to = moved_op(op, plan, plan.groups.len() as int);
            let now = after_reloads(op_vreg_uses(op), op, plan, t);
            (now.regs)(op_vreg_uses(to)[k].0) == regs(op_vreg_uses(op)[k].0)
        }),
{
    let uses = op_vreg_uses(op);
    let id = uses[k].0;
    lemma_refs_named(op);
    assert forall|j: int| 0 <= j < uses.len() implies names(op, (#[trigger] uses[j]).0) && uses[j].0
        < plan.fresh by {
        assert(names(op, uses[j].0));
    }
    assert(uses.contains(VReg(id)));
    lemma_reloaded(uses, op, plan, t, id);
    lemma_temps(plan, op, id, id);
}

proof fn lemma_refs_named(op: Op)
    ensures
        forall|k: int|
            0 <= k < op_vreg_uses(op).len() ==> names(op, (#[trigger] op_vreg_uses(op)[k]).0),
        forall|k: int|
            0 <= k < op_vreg_defs(op).len() ==> names(op, (#[trigger] op_vreg_defs(op)[k]).0),
{
    let uses = op_vreg_uses(op);
    let defs = op_vreg_defs(op);
    assert forall|k: int| 0 <= k < uses.len() implies names(op, (#[trigger] uses[k]).0) by {
        assert((uses + defs)[k] == VReg(uses[k].0));
    }
    assert forall|k: int| 0 <= k < defs.len() implies names(op, (#[trigger] defs[k]).0) by {
        assert((uses + defs)[uses.len() + k] == VReg(defs[k].0));
    }
}

/// And behind its stores the thread has what the registers would hold: if the operation writes
/// into the registers that stand for its own what it would have written into those, and
/// changes no other, the thread still has everything after the stores.
pub proof fn spilled_operations_keep_everything(
    op: Op,
    plan: Plan,
    t: Thread,
    regs: spec_fn(u32) -> u32,
    done: Thread,
    after: spec_fn(u32) -> u32,
)
    requires
        plan.fits(),
        moves_whole(op, plan),
        represents(plan, t, regs),
        forall|id: u32| #[trigger] names(op, id) ==> id < plan.fresh,
        forall|id: u32| !writes_vreg(op, id) ==> #[trigger] after(id) == regs(id),
        done.slots == t.slots,
        forall|k: int|
            0 <= k < op_vreg_defs(op).len() ==> (done.regs)(
                plan.temp(op, (#[trigger] op_vreg_defs(op)[k]).0).0,
            ) == after(op_vreg_defs(op)[k].0),
        forall|id: u32|
            id < plan.fresh && !writes_vreg(op, id) ==> #[trigger] (done.regs)(id) == (
            after_reloads(op_vreg_uses(op), op, plan, t).regs)(id),
    ensures
        represents(plan, after_stores(op_vreg_defs(op), op, plan, done), after),
{
    let uses = op_vreg_uses(op);
    let defs = op_vreg_defs(op);
    let end = after_stores(defs, op, plan, done);
    lemma_refs_named(op);
    assert forall|j: int| 0 <= j < defs.len() implies names(op, (#[trigger] defs[j]).0) && defs[j].0
        < plan.fresh by {
        assert(names(op, defs[j].0));
    }
    assert forall|j: int| 0 <= j < uses.len() implies names(op, (#[trigger] uses[j]).0) && uses[j].0
        < plan.fresh by {
        assert(names(op, uses[j].0));
    }
    assert forall|id: u32| id < plan.fresh implies #[trigger] after(id) == match plan.slot(id) {
        Some(s) => (end.slots)(s),
        None => (end.regs)(id),
    } by {
        if writes_vreg(op, id) {
            let k = choose|k: int| 0 <= k < defs.len() && defs[k] == VReg(id);
            assert(defs[k].0 == id);
            assert(names(op, id));
            lemma_stored(defs, op, plan, done, id);
            lemma_temps(plan, op, id, id);
        } else {
            assert(!defs.contains(VReg(id)));
            lemma_stored(defs, op, plan, done, id);
            assert(after(id) == regs(id));
            if plan.slot(id) is None {
                lemma_unloaded(uses, op, plan, t, id);
                assert((done.regs)(id) == (after_reloads(uses, op, plan, t).regs)(id));
            }
        }
    }
}

/// Loads leave registers alone that did not move.
proof fn lemma_unloaded(regs: Seq<VReg>, op: Op, plan: Plan, t: Thread, id: u32)
    requires
        plan.fits(),
        id < plan.fresh,
        forall|k: int|
            0 <= k < regs.len() ==> names(op, (#[trigger] regs[k]).0) && regs[k].0 < plan.fresh,
    ensures
        (after_reloads(regs, op, plan, t).regs)(id) == (t.regs)(id),
    decreases regs.len(),
{
    if regs.len() > 0 {
        let init = regs.drop_last();
        let last = regs.last().0;
        assert forall|k: int| 0 <= k < init.len() implies names(op, (#[trigger] init[k]).0)
            && init[k].0 < plan.fresh by {
            assert(init[k] == regs[k]);
        }
        lemma_unloaded(init, op, plan, t, id);
        assert(regs[regs.len() - 1].0 == last);
        lemma_temps(plan, op, last, last);
    }
}

} // verus!
