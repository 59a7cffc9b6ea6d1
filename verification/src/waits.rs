//! Removal of waits that wait for nothing.
//!
//! A wait lets at most some number of accesses stay outstanding. Where no more than that can
//! be outstanding anyway, it is left out. How many can be is followed through straight code;
//! at labels and behind text that is not read it is not known.
use vstd::prelude::*;

use crate::asm_emitter::{counts_lgkm, counts_vm, counts_vs};
use crate::ir::{Op, OpOf};
use crate::latency_model::{WaitCounter, op_latency};

verus! {

/// How many accesses can be outstanding at most, for each counter; nothing if that is not
/// known, or more than a wait can say.
#[derive(Clone, Copy, Debug, PartialEq, Eq, Structural)]
pub struct Bounds {
    pub vm: Option<u8>,
    pub lgkm: Option<u8>,
    pub vs: Option<u8>,
}

/// Whether a wait for the local data share and scalar memory may wait for an operation: one
/// that its counter counts, or an exchange between lanes, which takes the same way.
pub open spec fn leaves_lgkm<S>(op: OpOf<S>) -> bool {
    counts_lgkm(op) || op is DsSwizzle
}

/// A bound behind an operation that adds to a counter, or does not.
pub open spec fn bound_behind(bound: Option<u8>, counted: bool) -> Option<u8> {
    match bound {
        Some(n) => if !counted {
            Some(n)
        } else if n < u8::MAX {
            Some((n + 1) as u8)
        } else {
            None
        },
        None => None,
    }
}

/// A bound behind a wait.
pub open spec fn bound_waited(bound: Option<u8>, n: u8) -> Option<u8> {
    match bound {
        Some(m) => Some(
            if m <= n {
                m
            } else {
                n
            },
        ),
        None => Some(n),
    }
}

/// The bounds behind an operation.
pub open spec fn bounds_behind(b: Bounds, op: Op) -> Bounds {
    match op {
        OpOf::Label(_) => Bounds { vm: None, lgkm: None, vs: None },
        OpOf::RawAsm(_) => Bounds { vm: None, lgkm: None, vs: None },
        OpOf::WaitVmcnt(n) => Bounds { vm: bound_waited(b.vm, n), ..b },
        OpOf::WaitLgkmcnt(n) => Bounds { lgkm: bound_waited(b.lgkm, n), ..b },
        OpOf::WaitVscnt(n) => Bounds { vs: bound_waited(b.vs, n), ..b },
        _ => Bounds {
            vm: bound_behind(b.vm, counts_vm(op)),
            lgkm: bound_behind(b.lgkm, leaves_lgkm(op)),
            vs: bound_behind(b.vs, counts_vs(op)),
        },
    }
}

/// The bounds behind the first `n` operations of a kernel; at its start nothing is
/// outstanding.
pub open spec fn bounds_at(ops: Seq<Op>, n: int) -> Bounds
    decreases n,
{
    if n <= 0 {
        Bounds { vm: Some(0), lgkm: Some(0), vs: Some(0) }
    } else {
        bounds_behind(bounds_at(ops, n - 1), ops[n - 1])
    }
}

/// Whether no more than `n` accesses can be outstanding.
pub open spec fn at_most(bound: Option<u8>, n: u8) -> bool {
    bound matches Some(m) && m <= n
}

/// Whether an operation is a wait for nothing.
pub open spec fn waits_for_nothing(op: Op, b: Bounds) -> bool {
    match op {
        OpOf::WaitVmcnt(n) => at_most(b.vm, n),
        OpOf::WaitLgkmcnt(n) => at_most(b.lgkm, n),
        OpOf::WaitVscnt(n) => at_most(b.vs, n),
        _ => false,
    }
}

/// The first `n` operations without waits for nothing.
pub open spec fn without_idle_waits(ops: Seq<Op>, n: int) -> Seq<Op>
    decreases n,
{
    if n <= 0 {
        Seq::empty()
    } else if waits_for_nothing(ops[n - 1], bounds_at(ops, n - 1)) {
        without_idle_waits(ops, n - 1)
    } else {
        without_idle_waits(ops, n - 1).push(ops[n - 1])
    }
}

/// A bound behind an operation that adds to a counter, or does not.
fn count_one(bound: Option<u8>, counted: bool) -> (r: Option<u8>)
    ensures
        r == bound_behind(bound, counted),
{
    match bound {
        Some(n) => if !counted {
            Some(n)
        } else if n < u8::MAX {
            Some(n + 1)
        } else {
            None
        },
        None => None,
    }
}

/// A bound behind a wait.
fn wait_down(bound: Option<u8>, n: u8) -> (r: Option<u8>)
    ensures
        r == bound_waited(bound, n),
{
    match bound {
        Some(m) => if m <= n {
            Some(m)
        } else {
            Some(n)
        },
        None => Some(n),
    }
}

/// Whether no more than `n` accesses can be outstanding.
fn is_at_most(bound: Option<u8>, n: u8) -> (r: bool)
    ensures
        r == at_most(bound, n),
{
    match bound {
        Some(m) => m <= n,
        None => false,
    }
}

/// The bounds behind an operation.
fn advance(b: Bounds, op: &Op) -> (r: Bounds)
    ensures
        r == bounds_behind(b, *op),
{
    match op {
        OpOf::Label(_) | OpOf::RawAsm(_) => Bounds { vm: None, lgkm: None, vs: None },
        OpOf::WaitVmcnt(n) => Bounds { vm: wait_down(b.vm, *n), ..b },
        OpOf::WaitLgkmcnt(n) => Bounds { lgkm: wait_down(b.lgkm, *n), ..b },
        OpOf::WaitVscnt(n) => Bounds { vs: wait_down(b.vs, *n), ..b },
        _ => {
            let counter = op_latency(op).wait_counter;
            let vs: bool = matches!(counter, Some(WaitCounter::VScnt));
            let vm: bool = matches!(counter, Some(WaitCounter::VMcnt)) || vs;
            let lgkm: bool = matches!(counter, Some(WaitCounter::LGKMcnt))
                || matches!(op, OpOf::DsSwizzle { .. });
            Bounds {
                vm: count_one(b.vm, vm),
                lgkm: count_one(b.lgkm, lgkm),
                vs: count_one(b.vs, vs),
            }
        },
    }
}

/// Removes waits for nothing. Returns the operations and how many of them went.
pub fn remove_idle_waits(ops: Vec<Op>) -> (r: (Vec<Op>, usize))
    ensures
        r.0@ == without_idle_waits(ops@, ops@.len() as int),
        r.1 == ops@.len() - r.0@.len(),
        r.0@.len() <= ops@.len(),
{
    let mut out: Vec<Op> = Vec::new();
    let mut b = Bounds { vm: Some(0), lgkm: Some(0), vs: Some(0) };
    let mut i: usize = 0;
    while i < ops.len()
        invariant
            i <= ops.len(),
            out@ == without_idle_waits(ops@, i as int),
            out@.len() <= i,
            b == bounds_at(ops@, i as int),
        decreases ops.len() - i,
    {
        let idle: bool = match &ops[i] {
            OpOf::WaitVmcnt(n) => is_at_most(b.vm, *n),
            OpOf::WaitLgkmcnt(n) => is_at_most(b.lgkm, *n),
            OpOf::WaitVscnt(n) => is_at_most(b.vs, *n),
            _ => false,
        };
        if !idle {
            out.push(ops[i].clone());
        }
        b = advance(b, &ops[i]);
        i = i + 1;
    }
    let gone: usize = ops.len() - out.len();
    (out, gone)
}

/// How many accesses are outstanding in an execution.
pub struct Outstanding {
    pub vm: nat,
    pub lgkm: nat,
    pub vs: nat,
}

/// Whether no more is outstanding than can be.
pub open spec fn within(o: Outstanding, b: Bounds) -> bool {
    &&& b.vm matches Some(n) ==> o.vm <= n
    &&& b.lgkm matches Some(n) ==> o.lgkm <= n
    &&& b.vs matches Some(n) ==> o.vs <= n
}

/// Whether an operation can lead from one number of outstanding accesses to another: it adds
/// what it counts for, what was outstanding may be done, and a wait leaves no more than it
/// says. Text that is not read may add any number.
pub open spec fn can_lead_to(o: Outstanding, op: Op, after: Outstanding) -> bool {
    match op {
        OpOf::Label(_) => true,
        OpOf::RawAsm(_) => true,
        OpOf::WaitVmcnt(n) => after.vm <= o.vm && after.vm <= n && after.lgkm <= o.lgkm && after.vs
            <= o.vs,
        OpOf::WaitLgkmcnt(n) => after.lgkm <= o.lgkm && after.lgkm <= n && after.vm <= o.vm
            && after.vs <= o.vs,
        OpOf::WaitVscnt(n) => after.vs <= o.vs && after.vs <= n && after.vm <= o.vm && after.lgkm
            <= o.lgkm,
        _ => {
            &&& after.vm <= o.vm + if counts_vm(op) {
                1nat
            } else {
                0
            }
            &&& after.lgkm <= o.lgkm + if leaves_lgkm(op) {
                1nat
            } else {
                0
            }
            &&& after.vs <= o.vs + if counts_vs(op) {
                1nat
            } else {
                0
            }
        },
    }
}

/// Bounds stay right: what is outstanding behind an operation is within the bounds behind it.
pub proof fn bounds_stay_right(o: Outstanding, b: Bounds, op: Op, after: Outstanding)
    requires
        within(o, b),
        can_lead_to(o, op, after),
    ensures
        within(after, bounds_behind(b, op)),
{
}

/// A wait that is left out would not have waited: no more is outstanding than it lets be.
pub proof fn idle_waits_wait_for_nothing(o: Outstanding, b: Bounds, op: Op)
    requires
        within(o, b),
        waits_for_nothing(op, b),
    ensures
        op matches OpOf::WaitVmcnt(n) ==> o.vm <= n,
        op matches OpOf::WaitLgkmcnt(n) ==> o.lgkm <= n,
        op matches OpOf::WaitVscnt(n) ==> o.vs <= n,
        op is WaitVmcnt || op is WaitLgkmcnt || op is WaitVscnt,
{
}

/// The operations that are no waits, in order.
pub open spec fn no_waits(ops: Seq<Op>) -> Seq<Op>
    decreases ops.len(),
{
    if ops.len() == 0 {
        Seq::empty()
    } else if ops.last() is WaitVmcnt || ops.last() is WaitLgkmcnt || ops.last() is WaitVscnt {
        no_waits(ops.drop_last())
    } else {
        no_waits(ops.drop_last()).push(ops.last())
    }
}

proof fn lemma_only_waits_go(ops: Seq<Op>, n: int)
    requires
        0 <= n <= ops.len(),
    ensures
        no_waits(without_idle_waits(ops, n)) == no_waits(ops.take(n)),
    decreases n,
{
    if n > 0 {
        lemma_only_waits_go(ops, n - 1);
        assert(ops.take(n).drop_last() =~= ops.take(n - 1));
        let rest = without_idle_waits(ops, n - 1);
        assert(rest.push(ops[n - 1]).drop_last() =~= rest);
    }
}

/// Nothing but waits goes, and everything else stays in order.
pub proof fn only_waits_go(ops: Seq<Op>)
    ensures
        no_waits(without_idle_waits(ops, ops.len() as int)) == no_waits(ops),
{
    lemma_only_waits_go(ops, ops.len() as int);
    assert(ops.take(ops.len() as int) =~= ops);
}

} // verus!
