//! Placement of virtual registers in physical ones, with a place for each.
//!
//! Every declared group takes consecutive physical registers from the next aligned
//! one on. Registers that operations name without a declaration follow in ascending
//! order, so that consecutive ones stay consecutive. No two virtual registers share a
//! physical one.
use std::collections::HashMap;

use vstd::prelude::*;

use crate::ir::{Op, SReg, SRegAlloc, VReg, VRegAlloc, op_sreg_defs, op_sreg_uses, op_vreg_refs};

verus! {

broadcast use vstd::std_specs::hash::group_hash_axioms;

/// Scalar register that stands for the workgroup number along x.
pub const TGID_X_ID: u32 = 0xFFFF_FFFF;

/// Scalar register that stands for the workgroup number along y.
pub const TGID_Y_ID: u32 = 0xFFFF_FFFE;

/// Scalar register that stands for the workgroup number along z.
pub const TGID_Z_ID: u32 = 0xFFFF_FFFD;

/// Scalar registers from here on name hardware registers and are never placed.
pub const FIRST_RESERVED_SREG: u32 = 0xFFFF_FF00;

/// The first vector register that can be handed out: `v0` holds the thread number.
pub const FIRST_VGPR: u32 = 1;

/// Kernels with more vector registers than this hang on preemption.
pub const MAX_VGPRS: u32 = 254;

/// The first scalar register that can be handed out: `s0` to `s4` are set by the
/// hardware, and `s5` is scratch.
pub const FIRST_SGPR: u32 = 6;

/// How many scalar registers a wave can address.
pub const MAX_SGPRS: u32 = 106;

/// Consecutive virtual registers that are placed together.
#[derive(Clone, Copy, Debug, PartialEq, Eq, Structural)]
pub struct Group {
    pub first: u32,
    pub count: u32,
    pub align: u32,
}

impl Group {
    /// Whether a register belongs to the group.
    pub open spec fn has(self, id: u32) -> bool {
        self.first <= id < self.first + self.count
    }

    /// Whether the group's numbers exist and its alignment is a power of two up to 8.
    pub open spec fn valid(self) -> bool {
        &&& self.first + self.count <= u32::MAX
        &&& (self.align == 1 || self.align == 2 || self.align == 4 || self.align == 8)
    }
}

/// Whether the groups are valid and no register belongs to two of them.
pub open spec fn groups_valid(groups: Seq<Group>) -> bool {
    &&& forall|i: int| 0 <= i < groups.len() ==> (#[trigger] groups[i]).valid()
    &&& forall|i: int, j: int, id: u32|
        0 <= i < j < groups.len() && #[trigger] groups[i].has(id) ==> !#[trigger] groups[j].has(id)
}

/// Whether a register belongs to one of the groups.
pub open spec fn in_groups(groups: Seq<Group>, id: u32) -> bool {
    exists|i: int| 0 <= i < groups.len() && #[trigger] groups[i].has(id)
}

/// The first multiple of `a` from `n` on.
pub open spec fn align_up(n: nat, a: nat) -> nat {
    if n % a == 0 {
        n
    } else {
        (n - n % a + a) as nat
    }
}

/// The first free physical register after placing the groups from `start` on.
pub open spec fn groups_end(groups: Seq<Group>, start: nat) -> nat
    decreases groups.len(),
{
    if groups.len() == 0 {
        start
    } else {
        align_up(groups_end(groups.drop_last(), start), groups.last().align as nat)
            + groups.last().count as nat
    }
}

/// The first physical register of the group at `i`: the first aligned one behind the groups
/// in front of it.
pub open spec fn group_base(groups: Seq<Group>, i: int, start: nat) -> nat {
    align_up(groups_end(groups.take(i), start), groups[i].align as nat)
}

/// The named registers that no group holds.
pub open spec fn leftover(groups: Seq<Group>, refs: Set<u32>) -> Set<u32> {
    refs.filter(|id: u32| !in_groups(groups, id))
}

/// How many registers of a set have a smaller number than `id`.
pub open spec fn rank(ids: Set<u32>, id: u32) -> nat {
    ids.filter(|x: u32| x < id).len()
}

/// The first free physical register after placing the groups and the leftover registers.
pub open spec fn space_needed(groups: Seq<Group>, refs: Set<u32>, start: nat) -> nat {
    groups_end(groups, start) + leftover(groups, refs).len()
}

/// Whether distinct virtual registers have distinct physical ones in `[start, end)`.
pub open spec fn placed(map: Map<u32, u8>, start: nat, end: nat) -> bool {
    &&& forall|id: u32| map.contains_key(id) ==> start <= #[trigger] map[id] < end
    &&& forall|x: u32, y: u32|
        map.contains_key(x) && map.contains_key(y) && x != y ==> #[trigger] map[x]
            != #[trigger] map[y]
}

/// Whether a group has consecutive, aligned physical registers.
pub open spec fn group_placed(map: Map<u32, u8>, g: Group) -> bool {
    &&& forall|id: u32| #[trigger] g.has(id) ==> map.contains_key(id) && map[id] == map[g.first] + (
    id - g.first)
    &&& g.count > 0 ==> map[g.first] as int % g.align as int == 0
}

/// Whether the groups come first, in order, and the leftover registers follow by number. So
/// distinct registers have distinct places, and a group has consecutive, aligned ones.
pub open spec fn placement_of(
    map: Map<u32, u8>,
    end: nat,
    groups: Seq<Group>,
    refs: Set<u32>,
    start: nat,
) -> bool {
    &&& end == space_needed(groups, refs, start)
    &&& forall|id: u32|
        #[trigger] map.contains_key(id) <==> in_groups(groups, id) || refs.contains(id)
    &&& forall|i: int, id: u32|
        0 <= i < groups.len() && #[trigger] groups[i].has(id) ==> map[id] == group_base(
            groups,
            i,
            start,
        ) + (id - groups[i].first)
    &&& forall|id: u32| #[trigger]
        leftover(groups, refs).contains(id) ==> map[id] == groups_end(groups, start) + rank(
            leftover(groups, refs),
            id,
        )
    &&& placed(map, start, end)
    &&& forall|i: int| 0 <= i < groups.len() ==> #[trigger] group_placed(map, groups[i])
}

proof fn lemma_groups_end_grows(groups: Seq<Group>, n: int, start: nat)
    requires
        0 <= n <= groups.len(),
        groups_valid(groups),
    ensures
        start <= groups_end(groups.take(n), start) <= groups_end(groups, start),
    decreases groups.len(),
{
    if n == groups.len() {
        assert(groups.take(n) =~= groups);
        if n > 0 {
            assert(groups_valid(groups.drop_last()));
            lemma_groups_end_grows(groups.drop_last(), n - 1, start);
            assert(groups.drop_last().take(n - 1) =~= groups.drop_last());
        }
    } else {
        assert(groups_valid(groups.drop_last()));
        lemma_groups_end_grows(groups.drop_last(), n, start);
        assert(groups.drop_last().take(n) =~= groups.take(n));
    }
}

/// Places the groups one after the other.
fn place_groups(groups: &Vec<Group>, start: u32, limit: u32) -> (r: Option<
    (HashMap<u32, u8>, u32),
>)
    requires
        groups_valid(groups@),
        start <= limit <= 256,
    ensures
        match r {
            Some((map, end)) => {
                &&& end == groups_end(groups@, start as nat)
                &&& end <= limit
                &&& placed(map@, start as nat, end as nat)
                &&& forall|i: int|
                    0 <= i < groups@.len() ==> #[trigger] group_placed(map@, groups@[i])
                &&& forall|i: int, id: u32|
                    0 <= i < groups@.len() && #[trigger] groups@[i].has(id) ==> map@[id]
                        == group_base(groups@, i, start as nat) + (id - groups@[i].first)
                &&& forall|id: u32| #[trigger] map@.contains_key(id) <==> in_groups(groups@, id)
            },
            None => groups_end(groups@, start as nat) > limit,
        },
{
    let mut map: HashMap<u32, u8> = HashMap::new();
    let mut next: u32 = start;
    let mut i: usize = 0;
    while i < groups.len()
        invariant
            i <= groups.len(),
            groups_valid(groups@),
            start <= limit <= 256,
            next == groups_end(groups@.take(i as int), start as nat),
            start <= next <= limit,
            placed(map@, start as nat, next as nat),
            forall|j: int| 0 <= j < i ==> #[trigger] group_placed(map@, groups@[j]),
            forall|j: int, id: u32|
                0 <= j < i && #[trigger] groups@[j].has(id) ==> map@[id] == group_base(
                    groups@,
                    j,
                    start as nat,
                ) + (id - groups@[j].first),
            forall|id: u32| #[trigger]
                map@.contains_key(id) <==> in_groups(groups@.take(i as int), id),
        decreases groups.len() - i,
    {
        let g = groups[i];
        proof {
            assert(groups@.take(i + 1).drop_last() =~= groups@.take(i as int));
            lemma_groups_end_grows(groups@, i + 1, start as nat);
        }
        let rem: u32 = next % g.align;
        let base: u32 = if rem == 0 {
            next
        } else {
            next - rem + g.align
        };
        assert(base == align_up(next as nat, g.align as nat));
        assert(base % g.align == 0) by (nonlinear_arith)
            requires
                base == next - next % g.align + g.align || (base == next && next % g.align == 0),
                g.align == 1 || g.align == 2 || g.align == 4 || g.align == 8,
        ;
        if base > limit || g.count > limit - base {
            return None;
        }
        let ghost before = map@;
        assert forall|id: u32| #[trigger] g.has(id) implies !before.contains_key(id) by {
            if before.contains_key(id) {
                let j = choose|j: int|
                    0 <= j < i && #[trigger] groups@.take(i as int)[j].has(id);
                assert(groups@[j].has(id));
                assert(groups@[i as int].has(id));
            }
        }
        let mut k: u32 = 0;
        while k < g.count
            invariant
                k <= g.count,
                g.valid(),
                start <= next <= base,
                base + g.count <= limit <= 256,
                placed(before, start as nat, next as nat),
                forall|id: u32| #[trigger] g.has(id) ==> !before.contains_key(id),
                forall|id: u32| #[trigger]
                    map@.contains_key(id) <==> before.contains_key(id) || (g.first <= id < g.first
                        + k),
                forall|id: u32| before.contains_key(id) ==> #[trigger] map@[id] == before[id],
                forall|id: u32|
                    g.first <= id < g.first + k ==> #[trigger] map@[id] == base + (id - g.first),
            decreases g.count - k,
        {
            assert(g.has((g.first + k) as u32));
            map.insert(g.first + k, (base + k) as u8);
            k = k + 1;
        }
        next = base + g.count;
        proof {
            assert(group_placed(map@, g)) by {
                assert forall|id: u32|
                    #[trigger] g.has(id) implies map@.contains_key(id) && map@[id]
                    == map@[g.first] + (id - g.first) by {}
            }
            assert forall|j: int| 0 <= j < i + 1 implies #[trigger] group_placed(
                map@,
                groups@[j],
            ) by {
                if j < i {
                    assert(group_placed(before, groups@[j]));
                    assert forall|id: u32|
                        #[trigger] groups@[j].has(id) implies before.contains_key(
                        id,
                    ) by {}
                    if groups@[j].count > 0 {
                        assert(groups@[j].has(groups@[j].first));
                    }
                }
            }
            assert forall|j: int, id: u32|
                0 <= j < i + 1 && #[trigger] groups@[j].has(id) implies map@[id] == group_base(
                groups@,
                j,
                start as nat,
            ) + (id - groups@[j].first) by {
                if j < i {
                    assert(groups@.take(i as int)[j].has(id));
                    assert(before.contains_key(id));
                } else {
                    assert(g.has(id));
                }
            }
            assert forall|id: u32| #[trigger] map@.contains_key(id) <==> in_groups(
                groups@.take(i + 1),
                id,
            ) by {
                if map@.contains_key(id) {
                    if before.contains_key(id) {
                        let j = choose|j: int|
                            0 <= j < i && #[trigger] groups@.take(i as int)[j].has(id);
                        assert(groups@.take(i + 1)[j].has(id));
                    } else {
                        assert(groups@.take(i + 1)[i as int].has(id));
                    }
                }
                if in_groups(groups@.take(i + 1), id) {
                    let j = choose|j: int|
                        0 <= j < i + 1 && #[trigger] groups@.take(i + 1)[j].has(id);
                    if j < i {
                        assert(groups@.take(i as int)[j].has(id));
                    }
                }
            }
        }
        i = i + 1;
    }
    assert(groups@.take(i as int) =~= groups@);
    Some((map, next))
}

/// The smallest named register from `from` on that is not placed yet.
fn next_unplaced(refs: &Vec<u32>, map: &HashMap<u32, u8>) -> (r: Option<u32>)
    ensures
        match r {
            Some(id) => {
                &&& refs@.contains(id)
                &&& !map@.contains_key(id)
                &&& forall|x: u32| #[trigger] refs@.contains(x) && !map@.contains_key(x) ==> id <= x
            },
            None => forall|x: u32| #[trigger] refs@.contains(x) ==> map@.contains_key(x),
        },
{
    let mut best: Option<u32> = None;
    let mut i: usize = 0;
    while i < refs.len()
        invariant
            i <= refs.len(),
            match best {
                Some(id) => {
                    &&& refs@.contains(id)
                    &&& !map@.contains_key(id)
                    &&& forall|j: int|
                        0 <= j < i && !map@.contains_key(#[trigger] refs@[j]) ==> id <= refs@[j]
                },
                None => forall|j: int| 0 <= j < i ==> map@.contains_key(#[trigger] refs@[j]),
            },
        decreases refs.len() - i,
    {
        let id: u32 = refs[i];
        if !map.contains_key(&id) {
            match best {
                Some(b) => {
                    if id < b {
                        best = Some(id);
                    }
                },
                None => {
                    best = Some(id);
                },
            }
        }
        i = i + 1;
    }
    best
}

/// A larger register of a finite set has a larger rank, and all ranks are below its size.
pub proof fn lemma_rank_grows(ids: Set<u32>, x: u32, y: u32)
    requires
        ids.finite(),
        ids.contains(x),
    ensures
        x < y ==> rank(ids, x) < rank(ids, y),
        rank(ids, x) < ids.len(),
{
    let below = ids.filter(|i: u32| i < x);
    assert(!below.contains(x));
    assert(below.insert(x).subset_of(ids));
    vstd::set_lib::lemma_len_subset(below.insert(x), ids);
    if x < y {
        let more = ids.filter(|i: u32| i < y);
        assert(below.insert(x).subset_of(more));
        vstd::set_lib::lemma_len_subset(below.insert(x), more);
    }
}

/// Places the named registers that have no place yet, by number from `e` on. There is no
/// placement when the physical registers do not suffice.
pub(crate) fn place_rest(refs: &Vec<u32>, m: HashMap<u32, u8>, e: u32, limit: u32) -> (r: Option<
    (HashMap<u32, u8>, u32),
>)
    requires
        e <= limit <= 256,
    ensures
        ({
            let rest = refs@.to_set().filter(|id: u32| !m@.contains_key(id));
            match r {
                Some((map, end)) => {
                    &&& end == e + rest.len()
                    &&& end <= limit
                    &&& forall|id: u32| #[trigger]
                        map@.contains_key(id) <==> m@.contains_key(id) || refs@.contains(id)
                    &&& forall|id: u32| m@.contains_key(id) ==> #[trigger] map@[id] == m@[id]
                    &&& forall|id: u32| #[trigger]
                        rest.contains(id) ==> map@[id] == e + rank(rest, id)
                },
                None => e + rest.len() > limit,
            }
        }),
{
    let ghost rest = refs@.to_set().filter(|id: u32| !m@.contains_key(id));
    proof {
        vstd::seq_lib::seq_to_set_is_finite(refs@);
        assert(rest.finite());
    }
    let ghost declared = m@;
    let mut map = m;
    let mut next: u32 = e;
    let ghost mut done: Set<u32> = Set::empty();
    let ghost mut last: int = -1;
    loop
        invariant
            e <= next <= limit <= 256,
            declared == m@,
            rest == refs@.to_set().filter(|id: u32| !declared.contains_key(id)),
            rest.finite(),
            forall|id: u32| #[trigger]
                map@.contains_key(id) <==> declared.contains_key(id) || done.contains(id),
            forall|id: u32| declared.contains_key(id) ==> #[trigger] map@[id] == declared[id],
            done.finite(),
            done.len() == next - e,
            done.subset_of(rest),
            forall|id: u32| done.contains(id) ==> id <= last,
            forall|id: u32| #[trigger] rest.contains(id) && id <= last ==> done.contains(id),
            -1 <= last <= u32::MAX,
            forall|id: u32| #[trigger] done.contains(id) ==> map@[id] == e + rank(rest, id),
        ensures
            done == rest,
        decreases rest.len() - done.len(),
    {
        match next_unplaced(refs, &map) {
            None => {
                assert(done =~= rest) by {
                    assert forall|id: u32| rest.contains(id) implies done.contains(id) by {
                        assert(refs@.contains(id));
                    }
                }
                break;
            },
            Some(id) => {
                proof {
                    assert(rest.contains(id));
                    assert(done.insert(id).subset_of(rest));
                    vstd::set_lib::lemma_len_subset(done.insert(id), rest);
                }
                if next >= limit {
                    return None;
                }
                proof {
                    assert forall|x: u32|
                        #[trigger] rest.contains(x) && x < id implies done.contains(x) by {
                        assert(refs@.contains(x));
                    }
                    if id as int <= last {
                        assert(done.contains(id));
                    }
                }
                assert(rest.filter(|x: u32| x < id) =~= done);
                map.insert(id, next as u8);
                next = next + 1;
                proof {
                    done = done.insert(id);
                    last = id as int;
                }
            },
        }
    }
    proof {
        assert forall|id: u32| #[trigger] map@.contains_key(id) <==> declared.contains_key(id)
            || refs@.contains(id) by {
            if refs@.contains(id) && !declared.contains_key(id) {
                assert(rest.contains(id));
            }
        }
    }
    Some((map, next))
}

/// Places the groups and then the leftover registers. There is no placement when the
/// physical registers do not suffice.
pub fn place(groups: &Vec<Group>, refs: &Vec<u32>, start: u32, limit: u32) -> (r: Option<
    (HashMap<u32, u8>, u32),
>)
    requires
        groups_valid(groups@),
        start <= limit <= 256,
    ensures
        match r {
            Some((map, end)) => placement_of(
                map@,
                end as nat,
                groups@,
                refs@.to_set(),
                start as nat,
            ) && end <= limit,
            None => space_needed(groups@, refs@.to_set(), start as nat) > limit,
        },
{
    let ghost rest = leftover(groups@, refs@.to_set());
    match place_groups(groups, start, limit) {
        None => None,
        Some((m, e)) => {
            let ghost declared = m@;
            proof {
                lemma_groups_end_grows(groups@, groups@.len() as int, start as nat);
                assert(rest =~= refs@.to_set().filter(|id: u32| !declared.contains_key(id)));
                vstd::seq_lib::seq_to_set_is_finite(refs@);
                assert(rest.finite());
            }
            match place_rest(refs, m, e, limit) {
                None => None,
                Some((map, end)) => {
                    proof {
                        lemma_placed(map@, declared, groups@, rest, start as nat, e as nat);
                        assert forall|i: int|
                            0 <= i < groups@.len() implies #[trigger] group_placed(
                            map@,
                            groups@[i],
                        ) by {
                            assert(group_placed(declared, groups@[i]));
                            if groups@[i].count > 0 {
                                assert(groups@[i].has(groups@[i].first));
                            }
                        }
                        assert forall|i: int, id: u32|
                            0 <= i < groups@.len() && #[trigger] groups@[i].has(id) implies map@[id]
                            == group_base(groups@, i, start as nat) + (id - groups@[i].first) by {
                            assert(in_groups(groups@, id));
                            assert(declared.contains_key(id));
                        }
                    }
                    Some((map, end))
                },
            }
        },
    }
}

/// Registers behind distinct places, one for each rank, have distinct places with them.
proof fn lemma_placed(
    map: Map<u32, u8>,
    declared: Map<u32, u8>,
    groups: Seq<Group>,
    rest: Set<u32>,
    start: nat,
    e: nat,
)
    requires
        rest.finite(),
        start <= e,
        placed(declared, start, e),
        forall|id: u32| #[trigger] map.contains_key(id) <==> declared.contains_key(id)
            || rest.contains(id),
        forall|id: u32| declared.contains_key(id) ==> #[trigger] map[id] == declared[id],
        forall|id: u32| #[trigger] rest.contains(id) ==> map[id] == e + rank(rest, id),
    ensures
        placed(map, start, e + rest.len()),
{
    assert forall|id: u32| map.contains_key(id) implies start <= #[trigger] map[id] < e
        + rest.len() by {
        if rest.contains(id) {
            lemma_rank_grows(rest, id, id);
        } else {
            assert(declared.contains_key(id));
            assert(start <= declared[id] < e);
        }
    }
    assert forall|x: u32, y: u32|
        map.contains_key(x) && map.contains_key(y) && x != y implies #[trigger] map[x]
        != #[trigger] map[y] by {
        if rest.contains(x) && rest.contains(y) {
            lemma_rank_grows(rest, x, y);
            lemma_rank_grows(rest, y, x);
        } else if rest.contains(x) && declared.contains_key(y) {
            assert(declared[y] < e);
        } else if rest.contains(y) && declared.contains_key(x) {
            assert(declared[x] < e);
        } else {
            assert(declared[x] != declared[y]);
        }
    }
}

/// A placement of the registers of a kernel.
pub struct RegAlloc {
    pub vgpr_map: HashMap<u32, u8>,
    pub sgpr_map: HashMap<u32, u8>,
    pub total_vgprs: u32,
    pub total_sgprs: u32,
}

impl RegAlloc {
    /// Whether a vector register has a place.
    pub open spec fn has_v(self, v: VReg) -> bool {
        v.0 == 0 || self.vgpr_map@.contains_key(v.0)
    }

    /// The place of a vector register; register 0 is the hardware's `v0`.
    pub open spec fn v(self, v: VReg) -> u8 {
        if v.0 == 0 {
            0
        } else {
            self.vgpr_map@[v.0]
        }
    }

    /// Whether a scalar register has a place.
    pub open spec fn has_s(self, s: SReg) -> bool {
        s.0 == TGID_X_ID || s.0 == TGID_Y_ID || s.0 == TGID_Z_ID || self.sgpr_map@.contains_key(s.0)
    }

    /// The place of a scalar register; the workgroup numbers are in the hardware's `s2`,
    /// `s3` and `s4`.
    pub open spec fn s(self, s: SReg) -> u8 {
        if s.0 == TGID_X_ID {
            2
        } else if s.0 == TGID_Y_ID {
            3
        } else if s.0 == TGID_Z_ID {
            4
        } else {
            self.sgpr_map@[s.0]
        }
    }

    /// The place of a vector register.
    pub fn phys_v(&self, v: VReg) -> (r: u8)
        requires
            self.has_v(v),
        ensures
            r == self.v(v),
    {
        if v.0 == 0 {
            0
        } else {
            match self.vgpr_map.get(&v.0) {
                Some(p) => *p,
                None => 0,
            }
        }
    }

    /// The place of a scalar register.
    pub fn phys_s(&self, s: SReg) -> (r: u8)
        requires
            self.has_s(s),
        ensures
            r == self.s(s),
    {
        if s.0 == TGID_X_ID {
            2
        } else if s.0 == TGID_Y_ID {
            3
        } else if s.0 == TGID_Z_ID {
            4
        } else {
            match self.sgpr_map.get(&s.0) {
                Some(p) => *p,
                None => 0,
            }
        }
    }

    /// The place of a vector register, if it has one.
    pub fn find_v(&self, v: VReg) -> (r: Option<u8>)
        ensures
            r == (if self.has_v(v) {
                Some(self.v(v))
            } else {
                None
            }),
    {
        if v.0 == 0 {
            Some(0)
        } else {
            match self.vgpr_map.get(&v.0) {
                Some(p) => Some(*p),
                None => None,
            }
        }
    }

    /// The place of a scalar register, if it has one.
    pub fn find_s(&self, s: SReg) -> (r: Option<u8>)
        ensures
            r == (if self.has_s(s) {
                Some(self.s(s))
            } else {
                None
            }),
    {
        if s.0 == TGID_X_ID {
            Some(2)
        } else if s.0 == TGID_Y_ID {
            Some(3)
        } else if s.0 == TGID_Z_ID {
            Some(4)
        } else {
            match self.sgpr_map.get(&s.0) {
                Some(p) => Some(*p),
                None => None,
            }
        }
    }
}

/// The group of a declaration of vector registers.
pub open spec fn v_group(a: VRegAlloc) -> Group {
    Group { first: a.vreg.0, count: a.count, align: a.alignment.factor() as u32 }
}

/// The group of a declaration of scalar registers.
pub open spec fn s_group(a: SRegAlloc) -> Group {
    Group { first: a.sreg.0, count: a.count, align: a.alignment.factor() as u32 }
}

/// The groups of the declarations of vector registers.
pub open spec fn v_groups(allocs: Seq<VRegAlloc>) -> Seq<Group> {
    allocs.map_values(|a: VRegAlloc| v_group(a))
}

/// The groups of the declarations of scalar registers.
pub open spec fn s_groups(allocs: Seq<SRegAlloc>) -> Seq<Group> {
    allocs.map_values(|a: SRegAlloc| s_group(a))
}

/// Whether a sequence of registers names, in some operation, the vector register `id`.
pub open spec fn names_vreg(ops: Seq<Op>, id: u32) -> bool {
    exists|i: int| 0 <= i < ops.len() && #[trigger] op_vreg_refs(ops[i]).contains(VReg(id))
}

/// Whether some operation names the scalar register `id`.
pub open spec fn names_sreg(ops: Seq<Op>, id: u32) -> bool {
    exists|i: int|
        0 <= i < ops.len() && #[trigger] (op_sreg_uses(ops[i]) + op_sreg_defs(ops[i])).contains(
            SReg(id),
        )
}

/// The vector registers that operations name and that the hardware does not provide.
pub open spec fn named_vregs(ops: Seq<Op>) -> Set<u32> {
    Set::new(|id: u32| id != 0 && names_vreg(ops, id))
}

/// The scalar registers that operations name and that the hardware does not provide.
pub open spec fn named_sregs(ops: Seq<Op>) -> Set<u32> {
    Set::new(|id: u32| id < FIRST_RESERVED_SREG && names_sreg(ops, id))
}

/// The vector registers that operations name and that the hardware does not provide.
pub(crate) fn vreg_refs_of(ops: &[Op]) -> (refs: Vec<u32>)
    ensures
        refs@.to_set() == named_vregs(ops@),
{
    let mut refs: Vec<u32> = Vec::new();
    let mut i: usize = 0;
    while i < ops.len()
        invariant
            i <= ops.len(),
            forall|id: u32| #[trigger]
                refs@.contains(id) <==> id != 0 && names_vreg(ops@.take(i as int), id),
        decreases ops.len() - i,
    {
        let named: Vec<VReg> = ops[i].vreg_refs();
        let ghost before = refs@;
        let mut k: usize = 0;
        while k < named.len()
            invariant
                k <= named.len(),
                forall|id: u32| #[trigger]
                    refs@.contains(id) <==> before.contains(id) || (id != 0 && named@.take(
                        k as int,
                    ).contains(VReg(id))),
            decreases named.len() - k,
        {
            let ghost prev = refs@;
            let v: VReg = named[k];
            if v.0 != 0 {
                refs.push(v.0);
                assert(refs@.last() == v.0);
            }
            k = k + 1;
            proof {
                assert(named@.take(k as int) =~= named@.take(k - 1).push(v));
                assert forall|id: u32| #[trigger] refs@.contains(id) <==> before.contains(id) || (id
                    != 0 && named@.take(k as int).contains(VReg(id))) by {
                    if prev.contains(id) {
                        let j = choose|j: int| 0 <= j < prev.len() && prev[j] == id;
                        assert(refs@[j] == id);
                    }
                    if id == v.0 {
                        assert(named@.take(k as int).last() == VReg(id));
                    }
                    if named@.take(k - 1).contains(VReg(id)) {
                        let j = choose|j: int|
                            0 <= j < k - 1 && (#[trigger] named@.take(k - 1)[j]) == VReg(id);
                        assert(named@.take(k as int)[j] == VReg(id));
                    }
                }
            }
        }
        proof {
            assert(named@.take(k as int) =~= named@);
            let cur = ops@.take(i as int);
            let nxt = ops@.take(i + 1);
            assert forall|id: u32| #[trigger] refs@.contains(id) <==> id != 0 && names_vreg(
                nxt,
                id,
            ) by {
                if names_vreg(cur, id) {
                    let j = choose|j: int|
                        0 <= j < cur.len() && #[trigger] op_vreg_refs(cur[j]).contains(VReg(id));
                    assert(op_vreg_refs(nxt[j]).contains(VReg(id)));
                }
                if named@.contains(VReg(id)) {
                    assert(op_vreg_refs(nxt[i as int]).contains(VReg(id)));
                }
                if names_vreg(nxt, id) {
                    let j = choose|j: int|
                        0 <= j < nxt.len() && #[trigger] op_vreg_refs(nxt[j]).contains(VReg(id));
                    if j < i {
                        assert(op_vreg_refs(cur[j]).contains(VReg(id)));
                    }
                }
            }
        }
        i = i + 1;
    }
    assert(ops@.take(i as int) =~= ops@);
    assert(refs@.to_set() =~= named_vregs(ops@));
    refs
}

/// The scalar registers that operations name and that the hardware does not provide.
pub(crate) fn sreg_refs_of(ops: &[Op]) -> (refs: Vec<u32>)
    ensures
        refs@.to_set() == named_sregs(ops@),
{
    let mut refs: Vec<u32> = Vec::new();
    let mut i: usize = 0;
    while i < ops.len()
        invariant
            i <= ops.len(),
            forall|id: u32| #[trigger]
                refs@.contains(id) <==> id < FIRST_RESERVED_SREG && names_sreg(
                    ops@.take(i as int),
                    id,
                ),
        decreases ops.len() - i,
    {
        let mut named: Vec<SReg> = ops[i].sreg_uses();
        let mut defs: Vec<SReg> = ops[i].sreg_defs();
        named.append(&mut defs);
        let ghost before = refs@;
        let mut k: usize = 0;
        while k < named.len()
            invariant
                k <= named.len(),
                forall|id: u32| #[trigger]
                    refs@.contains(id) <==> before.contains(id) || (id < FIRST_RESERVED_SREG
                        && named@.take(k as int).contains(SReg(id))),
            decreases named.len() - k,
        {
            let ghost prev = refs@;
            let s: SReg = named[k];
            if s.0 < FIRST_RESERVED_SREG {
                refs.push(s.0);
                assert(refs@.last() == s.0);
            }
            k = k + 1;
            proof {
                assert(named@.take(k as int) =~= named@.take(k - 1).push(s));
                assert forall|id: u32| #[trigger] refs@.contains(id) <==> before.contains(id) || (id
                    < FIRST_RESERVED_SREG && named@.take(k as int).contains(SReg(id))) by {
                    if prev.contains(id) {
                        let j = choose|j: int| 0 <= j < prev.len() && prev[j] == id;
                        assert(refs@[j] == id);
                    }
                    if id == s.0 {
                        assert(named@.take(k as int).last() == SReg(id));
                    }
                    if named@.take(k - 1).contains(SReg(id)) {
                        let j = choose|j: int|
                            0 <= j < k - 1 && (#[trigger] named@.take(k - 1)[j]) == SReg(id);
                        assert(named@.take(k as int)[j] == SReg(id));
                    }
                }
            }
        }
        proof {
            assert(named@.take(k as int) =~= named@);
            let cur = ops@.take(i as int);
            let nxt = ops@.take(i + 1);
            assert forall|id: u32| #[trigger] refs@.contains(id) <==> id < FIRST_RESERVED_SREG
                && names_sreg(nxt, id) by {
                if names_sreg(cur, id) {
                    let j = choose|j: int|
                        0 <= j < cur.len() && #[trigger] (op_sreg_uses(cur[j]) + op_sreg_defs(
                            cur[j],
                        )).contains(SReg(id));
                    assert((op_sreg_uses(nxt[j]) + op_sreg_defs(nxt[j])).contains(SReg(id)));
                }
                if named@.contains(SReg(id)) {
                    assert((op_sreg_uses(nxt[i as int]) + op_sreg_defs(nxt[i as int])).contains(
                        SReg(id),
                    ));
                }
                if names_sreg(nxt, id) {
                    let j = choose|j: int|
                        0 <= j < nxt.len() && #[trigger] (op_sreg_uses(nxt[j]) + op_sreg_defs(
                            nxt[j],
                        )).contains(SReg(id));
                    if j < i {
                        assert((op_sreg_uses(cur[j]) + op_sreg_defs(cur[j])).contains(SReg(id)));
                    }
                }
            }
        }
        i = i + 1;
    }
    assert(ops@.take(i as int) =~= ops@);
    assert(refs@.to_set() =~= named_sregs(ops@));
    refs
}

/// Which kind of register does not suffice.
#[derive(Clone, Copy, Debug, PartialEq, Eq, Structural)]
pub enum AllocError {
    OutOfVgprs,
    OutOfSgprs,
}

/// Whether a placement is that of declared groups and of the registers that operations name.
pub open spec fn allocation_of(
    a: RegAlloc,
    v_groups: Seq<Group>,
    s_groups: Seq<Group>,
    ops: Seq<Op>,
) -> bool {
    &&& placement_of(
        a.vgpr_map@,
        a.total_vgprs as nat,
        v_groups,
        named_vregs(ops),
        FIRST_VGPR as nat,
    )
    &&& placement_of(
        a.sgpr_map@,
        a.total_sgprs as nat,
        s_groups,
        named_sregs(ops),
        FIRST_SGPR as nat,
    )
    &&& a.total_vgprs <= MAX_VGPRS
    &&& a.total_sgprs <= MAX_SGPRS
}

/// Whether there are too few physical registers of a kind. Vector registers are placed
/// first.
pub open spec fn exhausted(
    e: AllocError,
    v_groups: Seq<Group>,
    s_groups: Seq<Group>,
    ops: Seq<Op>,
) -> bool {
    let v = space_needed(v_groups, named_vregs(ops), FIRST_VGPR as nat);
    let s = space_needed(s_groups, named_sregs(ops), FIRST_SGPR as nat);
    match e {
        AllocError::OutOfVgprs => v > MAX_VGPRS,
        AllocError::OutOfSgprs => v <= MAX_VGPRS && s > MAX_SGPRS,
    }
}

/// The groups of the declarations of vector registers.
pub(crate) fn v_group_vec(allocs: &Vec<VRegAlloc>) -> (r: Vec<Group>)
    ensures
        r@ == v_groups(allocs@),
{
    let mut r: Vec<Group> = Vec::new();
    let mut i: usize = 0;
    while i < allocs.len()
        invariant
            i <= allocs.len(),
            r@ == v_groups(allocs@).take(i as int),
        decreases allocs.len() - i,
    {
        let a = allocs[i];
        r.push(Group { first: a.vreg.0, count: a.count, align: a.alignment.value() });
        i = i + 1;
        assert(r@ =~= v_groups(allocs@).take(i as int));
    }
    assert(r@ =~= v_groups(allocs@));
    r
}

/// The groups of the declarations of scalar registers.
pub(crate) fn s_group_vec(allocs: &Vec<SRegAlloc>) -> (r: Vec<Group>)
    ensures
        r@ == s_groups(allocs@),
{
    let mut r: Vec<Group> = Vec::new();
    let mut j: usize = 0;
    while j < allocs.len()
        invariant
            j <= allocs.len(),
            r@ == s_groups(allocs@).take(j as int),
        decreases allocs.len() - j,
    {
        let a = allocs[j];
        r.push(Group { first: a.sreg.0, count: a.count, align: a.alignment.value() });
        j = j + 1;
        assert(r@ =~= s_groups(allocs@).take(j as int));
    }
    assert(r@ =~= s_groups(allocs@));
    r
}

/// Places the registers of a kernel.
///
/// `v0` stays with the thread number, and the scalar registers that the hardware sets
/// stay with it. Declared groups come first, then every register that an operation
/// names without a declaration.
pub fn allocate(vreg_allocs: &Vec<VRegAlloc>, sreg_allocs: &Vec<SRegAlloc>, ops: &[Op]) -> (r:
    Result<RegAlloc, AllocError>)
    requires
        groups_valid(v_groups(vreg_allocs@)),
        groups_valid(s_groups(sreg_allocs@)),
    ensures
        match r {
            Ok(a) => allocation_of(a, v_groups(vreg_allocs@), s_groups(sreg_allocs@), ops@),
            Err(e) => exhausted(e, v_groups(vreg_allocs@), s_groups(sreg_allocs@), ops@),
        },
{
    let vg = v_group_vec(vreg_allocs);
    let sg = s_group_vec(sreg_allocs);
    let vr = vreg_refs_of(ops);
    let sr = sreg_refs_of(ops);
    match place(&vg, &vr, FIRST_VGPR, MAX_VGPRS) {
        None => Err(AllocError::OutOfVgprs),
        Some((vgpr_map, total_vgprs)) => match place(&sg, &sr, FIRST_SGPR, MAX_SGPRS) {
            None => Err(AllocError::OutOfSgprs),
            Some((sgpr_map, total_sgprs)) => Ok(
                RegAlloc { vgpr_map, sgpr_map, total_vgprs, total_sgprs },
            ),
        },
    }
}

/// No two vector registers share a physical one, `v0` included, and no two scalar registers
/// do, those with the workgroup numbers included.
pub proof fn places_are_distinct(
    a: RegAlloc,
    v_groups: Seq<Group>,
    s_groups: Seq<Group>,
    ops: Seq<Op>,
)
    requires
        allocation_of(a, v_groups, s_groups, ops),
    ensures
        forall|x: VReg, y: VReg|
            a.has_v(x) && a.has_v(y) && x != y ==> #[trigger] a.v(x) != #[trigger] a.v(y),
        forall|x: SReg, y: SReg|
            a.has_s(x) && a.has_s(y) && x != y ==> #[trigger] a.s(x) != #[trigger] a.s(y),
{
    assert forall|x: VReg, y: VReg| a.has_v(x) && a.has_v(y) && x != y implies #[trigger] a.v(x)
        != #[trigger] a.v(y) by {
        assert(x.0 != y.0);
    }
    assert forall|x: SReg, y: SReg| a.has_s(x) && a.has_s(y) && x != y implies #[trigger] a.s(x)
        != #[trigger] a.s(y) by {
        assert(x.0 != y.0);
    }
}

/// Two placements of the same kernel are the same.
pub proof fn allocation_is_unique(
    a: RegAlloc,
    b: RegAlloc,
    v_groups: Seq<Group>,
    s_groups: Seq<Group>,
    ops: Seq<Op>,
)
    requires
        allocation_of(a, v_groups, s_groups, ops),
        allocation_of(b, v_groups, s_groups, ops),
    ensures
        a.vgpr_map@ == b.vgpr_map@,
        a.sgpr_map@ == b.sgpr_map@,
        a.total_vgprs == b.total_vgprs,
        a.total_sgprs == b.total_sgprs,
{
    lemma_placement_is_unique(
        a.vgpr_map@,
        b.vgpr_map@,
        a.total_vgprs as nat,
        v_groups,
        named_vregs(ops),
        FIRST_VGPR as nat,
    );
    lemma_placement_is_unique(
        a.sgpr_map@,
        b.sgpr_map@,
        a.total_sgprs as nat,
        s_groups,
        named_sregs(ops),
        FIRST_SGPR as nat,
    );
}

/// A placement is determined by what is placed.
pub proof fn lemma_placement_is_unique(
    a: Map<u32, u8>,
    b: Map<u32, u8>,
    end: nat,
    groups: Seq<Group>,
    refs: Set<u32>,
    start: nat,
)
    requires
        placement_of(a, end, groups, refs, start),
        placement_of(b, end, groups, refs, start),
    ensures
        a == b,
{
    assert forall|id: u32| a.contains_key(id) <==> b.contains_key(id) by {}
    assert forall|id: u32| a.contains_key(id) implies #[trigger] a[id] == b[id] by {
        if in_groups(groups, id) {
            let i = choose|i: int| 0 <= i < groups.len() && #[trigger] groups[i].has(id);
            assert(groups[i].has(id));
        } else {
            assert(leftover(groups, refs).contains(id));
        }
    }
    assert(a =~= b);
}

} // verus!
