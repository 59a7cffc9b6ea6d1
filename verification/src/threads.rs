//! What operations do, thread by thread.
//!
//! A section of a kernel is followed from its first operation to its last, without jumps.
//! Registers hold words. What a thread loads, stores and multiplies is written down as a list
//! of events; what comes back from the local data share or a matrix instruction, where other
//! threads take part, is a parameter.
use vstd::arithmetic::power2::pow2;
use vstd::prelude::*;

use crate::ir::{OpOf, OpText, Operand, SOperand, SReg, VReg, Width};
use crate::lanes::{Floats, wrapped};
use crate::tile_ssa::BinOpKind;

verus! {

/// What a thread does that others can see or that it sees of others.
pub enum Event {
    /// Loads words from a byte address into registers from `dst` on.
    Load { at: int, count: nat, dst: u32 },
    /// Stores a word at a byte address.
    Store { at: int, word: u32 },
    /// Puts four words in the local data share.
    SharedStore { at: int, words: Seq<u32> },
    /// Gets four registers from `dst` on from the local data share.
    SharedLoad { at: int, dst: u32 },
    /// Takes part in a matrix multiplication.
    Product { a: u32, b: u32, c: u32, dst: u32 },
}

/// The state of a thread.
#[verifier::ext_equal]
pub struct Thread {
    /// Vector registers by number.
    pub v: Map<u32, u32>,
    /// Scalar registers by number.
    pub s: Map<u32, u32>,
    pub carry: bool,
    /// The result of the last scalar comparison.
    pub scc: bool,
    pub events: Seq<Event>,
}

/// What surrounds the threads of a workgroup.
pub struct Machine {
    /// The words of the argument buffer by byte.
    pub args: spec_fn(int) -> u32,
    /// The number of the workgroup by axis.
    pub group: spec_fn(u8) -> u32,
    /// The words of memory by byte.
    pub words: spec_fn(int) -> u32,
    /// What comes from the local data share, by the number of events before and by register.
    pub shared: spec_fn(nat, u32) -> u32,
    /// What comes from a matrix instruction, by the number of events before and by register.
    pub sums: spec_fn(nat, u32) -> u32,
    pub floats: Floats,
}

/// A part of a kernel that is followed: where it begins, and the threads as they are there.
pub struct Section {
    pub machine: Machine,
    pub from: nat,
    pub start: spec_fn(u32) -> Thread,
}

impl Thread {
    pub open spec fn operand(self, o: Operand) -> u32 {
        match o {
            Operand::VReg(r) => self.v[r.0],
            Operand::InlineInt(x) => wrapped(x as int),
            Operand::InlineFloat(bits) => bits,
            Operand::Literal(x) => x,
        }
    }

    pub open spec fn scalar(self, o: SOperand) -> u32 {
        match o {
            SOperand::SReg(r) => self.s[r.0],
            SOperand::InlineInt(x) => wrapped(x as int),
            SOperand::Literal(x) => x,
            SOperand::Vcc => arbitrary(),
        }
    }

    /// The 64-bit number in two registers, the lower half first.
    pub open spec fn pair(self, r: VReg) -> int {
        self.v[r.0] + 0x1_0000_0000 * self.v[(r.0 + 1) as u32]
    }

    /// The words of four registers from `r` on.
    pub open spec fn four(self, r: VReg) -> Seq<u32> {
        Seq::new(4, |i: int| self.v[(r.0 + i) as u32])
    }

    pub open spec fn with_v(self, r: VReg, x: u32) -> Thread {
        Thread { v: self.v.insert(r.0, x), ..self }
    }

    pub open spec fn with_s(self, r: SReg, x: u32) -> Thread {
        Thread { s: self.s.insert(r.0, x), ..self }
    }

    /// With `n` registers from `r` on.
    pub open spec fn with_vs(self, r: VReg, n: nat, word: spec_fn(int) -> u32) -> Thread
        decreases n,
    {
        if n == 0 {
            self
        } else {
            let i = (n - 1) as nat;
            self.with_vs(r, i, word).with_v(VReg((r.0 + i) as u32), word(i as int))
        }
    }

    pub open spec fn with_event(self, e: Event) -> Thread {
        Thread { events: self.events.push(e), ..self }
    }
}

/// Registers outside a group keep their words.
pub proof fn lemma_with_vs(th: Thread, r: VReg, n: nat, word: spec_fn(int) -> u32)
    requires
        r.0 + n <= u32::MAX,
    ensures
        th.with_vs(r, n, word).s == th.s,
        th.with_vs(r, n, word).carry == th.carry,
        th.with_vs(r, n, word).scc == th.scc,
        th.with_vs(r, n, word).events == th.events,
        forall|q: u32|
            !(r.0 <= q < r.0 + n) ==> #[trigger] th.with_vs(r, n, word).v[q] == th.v[q],
        forall|q: u32|
            r.0 <= q < r.0 + n ==> #[trigger] th.with_vs(r, n, word).v[q] == word(q - r.0),
    decreases n,
{
    if n > 0 {
        lemma_with_vs(th, r, (n - 1) as nat, word);
    }
}

/// How many words a load of a width takes.
pub open spec fn words_of(w: Width) -> nat {
    match w {
        Width::B64 => 2,
        Width::B128 => 4,
        _ => 1,
    }
}

/// A thread behind an operation of its own. What is not needed to follow integers, addresses
/// and sums is left open.
pub open spec fn step(op: OpText, m: Machine, th: Thread) -> Thread {
    match op {
        OpOf::ScalarLoad { dst, offset, width, .. } => if width == Width::B64 {
            th.with_s(dst, (m.args)(offset as int)).with_s(
                SReg((dst.0 + 1) as u32),
                (m.args)(offset + 4),
            )
        } else {
            th.with_s(dst, (m.args)(offset as int))
        },
        OpOf::CaptureTgid { dst, axis } => th.with_s(dst, (m.group)(axis)),
        OpOf::SMov { dst, src } => th.with_s(dst, th.scalar(src)),
        OpOf::SAddU32 { dst, src0, src1 } => th.with_s(
            dst,
            wrapped(th.s[src0.0] + th.scalar(src1)),
        ),
        OpOf::SAndB32 { dst, src0, src1 } => th.with_s(dst, th.s[src0.0] & th.scalar(src1)),
        OpOf::SMulI32 { dst, src0, src1 } => th.with_s(
            dst,
            wrapped(th.s[src0.0] * th.s[src1.0]),
        ),
        OpOf::SLshlB32 { dst, src, shift } => th.with_s(
            dst,
            wrapped(th.s[src.0] * pow2(shift as nat)),
        ),
        OpOf::SLshrB32 { dst, src, shift } => th.with_s(
            dst,
            (th.s[src.0] as nat / pow2(shift as nat)) as u32,
        ),
        OpOf::SCmpGeU32 { src0, src1 } => Thread { scc: th.s[src0.0] >= th.s[src1.0], ..th },
        OpOf::SCmpLtU32 { src0, src1 } => Thread { scc: th.s[src0.0] < th.s[src1.0], ..th },
        OpOf::SCmpEqU32 { src0, src1 } => Thread { scc: th.s[src0.0] == th.scalar(src1), ..th },
        OpOf::VMov { dst, src } => th.with_v(dst, th.operand(src)),
        OpOf::VMovFromSgpr { dst, src } => th.with_v(dst, th.s[src.0]),
        OpOf::VAndB32 { dst, src0, src1 } => th.with_v(dst, th.operand(src0) & th.operand(src1)),
        OpOf::VAddU32 { dst, src0, src1 } => th.with_v(
            dst,
            wrapped(th.operand(src0) + th.operand(src1)),
        ),
        OpOf::VMulLoU32 { dst, src0, src1 } => th.with_v(
            dst,
            wrapped(th.v[src0.0] * th.v[src1.0]),
        ),
        OpOf::VLshlrevB32 { dst, shift, src } => th.with_v(
            dst,
            wrapped(th.v[src.0] * pow2(shift as nat)),
        ),
        OpOf::VLshrrevB32 { dst, shift, src } => th.with_v(
            dst,
            (th.v[src.0] as nat / pow2(shift as nat)) as u32,
        ),
        OpOf::VAddCo { dst, src0, src1 } => Thread {
            carry: th.v[src0.0] + th.v[src1.0] > u32::MAX,
            ..th.with_v(dst, wrapped(th.v[src0.0] + th.v[src1.0]))
        },
        OpOf::VAddCoCi { dst, src } => th.with_v(
            dst,
            wrapped(
                th.v[src.0] + if th.carry {
                    1int
                } else {
                    0
                },
            ),
        ),
        OpOf::VAddF32 { dst, src0, src1 } => th.with_v(
            dst,
            m.floats.plus(th.operand(src0), th.operand(src1)),
        ),
        OpOf::VMaxF32 { dst, src0, src1 } => th.with_v(
            dst,
            (m.floats.binary)(BinOpKind::Max, th.operand(src0), th.operand(src1)),
        ),
        OpOf::GlobalLoad { dst, addr, width, offset } => {
            let at = th.pair(addr) + offset;
            th.with_vs(dst, words_of(width), |i: int| (m.words)(at + 4 * i)).with_event(
                Event::Load { at, count: words_of(width), dst: dst.0 },
            )
        },
        OpOf::GlobalStore { addr, src, width: Width::B32, offset } => th.with_event(
            Event::Store { at: th.pair(addr) + offset, word: th.v[src.0] },
        ),
        OpOf::DsStoreB128 { vaddr, src, offset } => th.with_event(
            Event::SharedStore { at: th.v[vaddr.0] + offset, words: th.four(src) },
        ),
        OpOf::DsLoadB128 { dst, vaddr, offset } => th.with_vs(
            dst,
            4,
            |i: int| (m.shared)(th.events.len(), (dst.0 + i) as u32),
        ).with_event(Event::SharedLoad { at: th.v[vaddr.0] + offset, dst: dst.0 }),
        OpOf::Wmma { dst, a, b, c, .. } => th.with_vs(
            dst,
            8,
            |i: int| (m.sums)(th.events.len(), (dst.0 + i) as u32),
        ).with_event(Event::Product { a: a.0, b: b.0, c: c.0, dst: dst.0 }),
        OpOf::Label(_) | OpOf::BranchScc1(_) | OpOf::SBarrier | OpOf::WaitVmcnt(_)
        | OpOf::WaitLgkmcnt(_) | OpOf::WaitVscnt(_) | OpOf::Endpgm => th,
        _ => arbitrary(),
    }
}

/// The first thread of the wave of a thread.
pub open spec fn wave_head(t: u32) -> u32 {
    (t - t % 32) as u32
}

/// Thread `t` behind the operations of a section so far. Reading the first lane takes the
/// word of the first thread of the wave.
pub open spec fn after(x: Section, ops: Seq<OpText>, t: u32) -> Thread
    decreases ops.len(),
{
    if ops.len() <= x.from {
        (x.start)(t)
    } else {
        let th = after(x, ops.drop_last(), t);
        match ops.last() {
            OpOf::VReadfirstlane { dst, src } => th.with_s(
                dst,
                after(x, ops.drop_last(), wave_head(t)).v[src.0],
            ),
            op => step(op, x.machine, th),
        }
    }
}

/// One more operation is one more step.
pub broadcast proof fn lemma_one_more(x: Section, ops: Seq<OpText>, op: OpText, t: u32)
    requires
        x.from <= ops.len(),
        !(op is VReadfirstlane),
    ensures
        #[trigger] after(x, ops.push(op), t) == step(op, x.machine, after(x, ops, t)),
{
    assert(ops.push(op).drop_last() =~= ops);
}

/// Reading the first lane.
pub proof fn lemma_first_lane(x: Section, ops: Seq<OpText>, dst: SReg, src: VReg, t: u32)
    requires
        x.from <= ops.len(),
    ensures
        after(x, ops.push(OpOf::VReadfirstlane { dst, src }), t) == after(x, ops, t).with_s(
            dst,
            after(x, ops, wave_head(t)).v[src.0],
        ),
{
    assert(ops.push(OpOf::VReadfirstlane { dst, src }).drop_last() =~= ops);
}

} // verus!
