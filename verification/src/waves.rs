//! What operations on registers do to a wave of 32 lanes.
//!
//! Every lane has its own words in the vector registers and its own bit of the condition code;
//! scalar registers belong to the wave. Operations that touch memory or leave the straight
//! line, and text that is not read, are left open.
use vstd::arithmetic::power2::pow2;
use vstd::prelude::*;

use crate::compile::{pack_all, pack_ops, transpose_ops};
use crate::ir::{OpOf, OpText, Operand, SOperand, SReg, VReg};
use crate::lanes::{Floats, packed, wrapped};
use crate::tile_ssa::{BinOpKind, ReduceKind, UnaryOpKind};

verus! {

// ── Waves ──
/// The registers of a wave.
pub struct Wave {
    /// Vector registers, by number and lane.
    pub v: spec_fn(u32, u32) -> u32,
    /// Scalar registers, by number.
    pub s: spec_fn(u32) -> u32,
    /// The condition code, by lane.
    pub vcc: spec_fn(u32) -> bool,
    /// The scalar condition code.
    pub scc: bool,
}

/// A word as a signed number.
pub open spec fn signed(x: u32) -> int {
    if x < 0x8000_0000 {
        x as int
    } else {
        x - 0x1_0000_0000
    }
}

/// The lane at the same place in the other half of the wave.
pub open spec fn across(lane: u32) -> u32 {
    if lane < 16 {
        (lane + 16) as u32
    } else {
        (lane - 16) as u32
    }
}

/// The lane that a swizzle reads: its number masked with the lowest five bits of the code, with
/// the next five set and the next five flipped.
pub open spec fn swizzled(lane: u32, code: u16) -> u32 {
    ((lane & (code as u32 & 31)) | ((code as u32 >> 5u32) & 31)) ^ ((code as u32 >> 10u32) & 31)
}

impl Wave {
    /// The word of an operand in a lane.
    pub open spec fn operand(self, o: Operand, lane: u32) -> u32 {
        match o {
            Operand::VReg(r) => (self.v)(r.0, lane),
            Operand::InlineInt(x) => wrapped(x as int),
            Operand::InlineFloat(bits) => bits,
            Operand::Literal(x) => x,
        }
    }

    /// The word of a scalar operand.
    pub open spec fn scalar(self, o: SOperand) -> u32 {
        match o {
            SOperand::SReg(r) => (self.s)(r.0),
            SOperand::InlineInt(x) => wrapped(x as int),
            SOperand::Literal(x) => x,
            SOperand::Vcc => arbitrary(),
        }
    }

    /// With a vector register.
    pub open spec fn with_v(self, r: VReg, word: spec_fn(u32) -> u32) -> Wave {
        Wave {
            v: |q: u32, lane: u32|
                if q == r.0 {
                    word(lane)
                } else {
                    (self.v)(q, lane)
                },
            ..self
        }
    }

    /// With a scalar register.
    pub open spec fn with_s(self, r: SReg, word: u32) -> Wave {
        Wave {
            s: |q: u32|
                if q == r.0 {
                    word
                } else {
                    (self.s)(q)
                },
            ..self
        }
    }

    /// With a result of an operation on the words of two operands, lane by lane.
    pub open spec fn two(
        self,
        dst: VReg,
        a: Operand,
        b: Operand,
        f: spec_fn(u32, u32) -> u32,
    ) -> Wave {
        self.with_v(dst, |lane: u32| f(self.operand(a, lane), self.operand(b, lane)))
    }

    /// With a result of an operation on the words of one register, lane by lane.
    pub open spec fn one(self, dst: VReg, src: VReg, f: spec_fn(u32) -> u32) -> Wave {
        self.with_v(dst, |lane: u32| f((self.v)(src.0, lane)))
    }

    /// With a comparison of the words of two operands, lane by lane.
    pub open spec fn compared(
        self,
        a: Operand,
        b: Operand,
        f: spec_fn(u32, u32) -> bool,
    ) -> Wave {
        Wave { vcc: |lane: u32| f(self.operand(a, lane), self.operand(b, lane)), ..self }
    }

    /// The words of a register in all lanes.
    pub open spec fn all(self, r: VReg) -> Seq<u32> {
        Seq::new(32, |lane: int| (self.v)(r.0, lane as u32))
    }
}

/// A wave behind an operation on registers.
pub open spec fn wave_step(op: OpText, fl: Floats, w: Wave) -> Wave {
    match op {
        OpOf::VMov { dst, src } => w.with_v(dst, |lane: u32| w.operand(src, lane)),
        OpOf::VMovFromSgpr { dst, src } => w.with_v(dst, |lane: u32| (w.s)(src.0)),
        OpOf::VAddF32 { dst, src0, src1 } => w.two(dst, src0, src1, |x: u32, y: u32| fl.plus(x, y)),
        OpOf::VSubF32 { dst, src0, src1 } => w.two(
            dst,
            src0,
            src1,
            |x: u32, y: u32| fl.minus(x, y),
        ),
        OpOf::VMulF32 { dst, src0, src1 } => w.two(
            dst,
            src0,
            src1,
            |x: u32, y: u32| fl.times(x, y),
        ),
        OpOf::VMaxF32 { dst, src0, src1 } => w.two(
            dst,
            src0,
            src1,
            |x: u32, y: u32| (fl.binary)(BinOpKind::Max, x, y),
        ),
        OpOf::VMinF32 { dst, src0, src1 } => w.two(
            dst,
            src0,
            src1,
            |x: u32, y: u32| (fl.binary)(BinOpKind::Min, x, y),
        ),
        OpOf::VMinU32 { dst, src0, src1 } => w.two(
            dst,
            src0,
            src1,
            |x: u32, y: u32|
                if x <= y {
                    x
                } else {
                    y
                },
        ),
        OpOf::VAddU32 { dst, src0, src1 } => w.two(
            dst,
            src0,
            src1,
            |x: u32, y: u32| wrapped(x + y),
        ),
        OpOf::VSubU32 { dst, src0, src1 } => w.two(
            dst,
            src0,
            src1,
            |x: u32, y: u32| wrapped(x - y),
        ),
        OpOf::VAndB32 { dst, src0, src1 } => w.two(dst, src0, src1, |x: u32, y: u32| x & y),
        OpOf::VOrB32 { dst, src0, src1 } => w.two(dst, src0, src1, |x: u32, y: u32| x | y),
        OpOf::VXorB32 { dst, src0, src1 } => w.two(dst, src0, src1, |x: u32, y: u32| x ^ y),
        OpOf::VFmaF32 { dst, src0, src1, src2 } => w.with_v(
            dst,
            |lane: u32|
                (fl.fused)(w.operand(src0, lane), w.operand(src1, lane), w.operand(src2, lane)),
        ),
        OpOf::VMulLoU32 { dst, src0, src1 } => w.with_v(
            dst,
            |lane: u32| wrapped((w.v)(src0.0, lane) * (w.v)(src1.0, lane)),
        ),
        OpOf::VLshlrevB32 { dst, shift, src } => w.one(
            dst,
            src,
            |x: u32| wrapped(x * pow2(shift as nat)),
        ),
        OpOf::VLshrrevB32 { dst, shift, src } => w.one(
            dst,
            src,
            |x: u32| (x as nat / pow2(shift as nat)) as u32,
        ),
        OpOf::VLshrrevB32Vgpr { dst, shift, src } => w.with_v(
            dst,
            |lane: u32|
                ((w.v)(src.0, lane) as nat / pow2(((w.v)(shift.0, lane) % 32) as nat)) as u32,
        ),
        OpOf::VAndOrB32 { dst, src0, literal, src2 } => w.with_v(
            dst,
            |lane: u32| ((w.v)(src0.0, lane) & literal) | (w.v)(src2.0, lane),
        ),
        OpOf::CvtPkBf16F32 { dst, src0, src1 } => w.with_v(
            dst,
            |lane: u32| packed((w.v)(src0.0, lane), (w.v)(src1.0, lane)),
        ),
        OpOf::VCvtF32U32 { dst, src } => w.one(dst, src, |x: u32| (fl.of_word)(x)),
        OpOf::VCvtU32F32 { dst, src } => w.one(dst, src, |x: u32| (fl.to_word)(x)),
        OpOf::VRsqF32 { dst, src } => w.one(dst, src, |x: u32| fl.apply(UnaryOpKind::Rsqrt, x)),
        OpOf::VExpF32 { dst, src } => w.one(dst, src, |x: u32| fl.apply(UnaryOpKind::Exp2, x)),
        OpOf::VSinF32 { dst, src } => w.one(dst, src, |x: u32| fl.apply(UnaryOpKind::Sin, x)),
        OpOf::VCosF32 { dst, src } => w.one(dst, src, |x: u32| fl.apply(UnaryOpKind::Cos, x)),
        OpOf::VRcpF32 { dst, src } => w.one(dst, src, |x: u32| fl.apply(UnaryOpKind::Rcp, x)),
        OpOf::VSqrtF32 { dst, src } => w.one(dst, src, |x: u32| fl.apply(UnaryOpKind::Sqrt, x)),
        OpOf::VLog2F32 { dst, src } => w.one(dst, src, |x: u32| fl.apply(UnaryOpKind::Log2, x)),
        OpOf::VReadfirstlane { dst, src } => w.with_s(dst, (w.v)(src.0, 0)),
        OpOf::VPermlanex16B32 { dst, src } => w.with_v(
            dst,
            |lane: u32| (w.v)(src.0, across(lane)),
        ),
        OpOf::DsSwizzle { dst, src, offset } => w.with_v(
            dst,
            |lane: u32| (w.v)(src.0, swizzled(lane, offset)),
        ),
        OpOf::VAddCo { dst, src0, src1 } | OpOf::VAddCOU32 { dst, src0, src1 } => Wave {
            vcc: |lane: u32| (w.v)(src0.0, lane) + (w.v)(src1.0, lane) > u32::MAX,
            ..w.with_v(dst, |lane: u32| wrapped((w.v)(src0.0, lane) + (w.v)(src1.0, lane)))
        },
        OpOf::VAddCoCi { dst, src } | OpOf::VAddCCU32 { dst, src } => Wave {
            vcc: |lane: u32| (w.vcc)(lane) && (w.v)(src.0, lane) == u32::MAX,
            ..w.with_v(
                dst,
                |lane: u32|
                    wrapped(
                        (w.v)(src.0, lane) + if (w.vcc)(lane) {
                            1int
                        } else {
                            0
                        },
                    ),
            )
        },
        OpOf::VCmpLtU32 { src0, src1 } => w.compared(src0, src1, |x: u32, y: u32| x < y),
        OpOf::VCmpGeU32 { src0, src1 } => w.compared(src0, src1, |x: u32, y: u32| x >= y),
        OpOf::VCmpGtU32 { src0, src1 } => w.compared(src0, src1, |x: u32, y: u32| x > y),
        OpOf::VCmpEqU32 { src0, src1 } => w.compared(src0, src1, |x: u32, y: u32| x == y),
        OpOf::VCmpEqF32 { src0, src1 } => w.compared(
            src0,
            src1,
            |x: u32, y: u32| (fl.same)(x, y),
        ),
        OpOf::VCmpGtF32 { src0, src1 } => w.compared(
            src0,
            src1,
            |x: u32, y: u32| (fl.less)(y, x),
        ),
        OpOf::VCmpLtF32 { src0, src1 } => w.compared(
            src0,
            src1,
            |x: u32, y: u32| (fl.less)(x, y),
        ),
        OpOf::VCmpGeF32 { src0, src1 } => w.compared(
            src0,
            src1,
            |x: u32, y: u32| (fl.less)(y, x) || (fl.same)(x, y),
        ),
        OpOf::VCmpGtF32Imm0 { src } => Wave {
            vcc: |lane: u32| (fl.less)(0, (w.v)(src.0, lane)),
            ..w
        },
        OpOf::VCmpGtU32Imm { src, imm } => Wave {
            vcc: |lane: u32| (w.v)(src.0, lane) > imm,
            ..w
        },
        OpOf::VCmpEqU32Imm { src, imm } => Wave {
            vcc: |lane: u32| (w.v)(src.0, lane) == imm,
            ..w
        },
        OpOf::VCmpGeI32 { src0, src1 } => Wave {
            vcc: |lane: u32| signed((w.v)(src0.0, lane)) >= signed((w.v)(src1.0, lane)),
            ..w
        },
        OpOf::VCndmaskB32 { dst, src_false, src_true } => w.with_v(
            dst,
            |lane: u32|
                if (w.vcc)(lane) {
                    w.operand(src_true, lane)
                } else {
                    w.operand(src_false, lane)
                },
        ),
        OpOf::WaveReduceAddF32 { val, tmp } => w.with_v(tmp, |lane: u32| arbitrary()).with_v(
            val,
            |lane: u32| (fl.reduce)(ReduceKind::Add, w.all(val)),
        ),
        OpOf::WaveReduceMaxF32 { val, tmp } => w.with_v(tmp, |lane: u32| arbitrary()).with_v(
            val,
            |lane: u32| (fl.reduce)(ReduceKind::Max, w.all(val)),
        ),
        OpOf::WaveReduceMinF32 { val, tmp } => w.with_v(tmp, |lane: u32| arbitrary()).with_v(
            val,
            |lane: u32| (fl.reduce)(ReduceKind::Min, w.all(val)),
        ),
        OpOf::SMov { dst, src } => w.with_s(dst, w.scalar(src)),
        OpOf::SAddU32 { dst, src0, src1 } => Wave {
            scc: (w.s)(src0.0) + w.scalar(src1) > u32::MAX,
            ..w.with_s(dst, wrapped((w.s)(src0.0) + w.scalar(src1)))
        },
        OpOf::SAddcU32 { dst, src0, src1 } => {
            let sum = (w.s)(src0.0) + w.scalar(src1) + if w.scc {
                1int
            } else {
                0
            };
            Wave { scc: sum > u32::MAX, ..w.with_s(dst, wrapped(sum)) }
        },
        OpOf::SSubU32 { dst, src0, src1 } => Wave {
            scc: (w.s)(src0.0) < w.scalar(src1),
            ..w.with_s(dst, wrapped((w.s)(src0.0) - w.scalar(src1)))
        },
        OpOf::SAndB32 { dst, src0, src1 } => Wave {
            scc: (w.s)(src0.0) & w.scalar(src1) != 0,
            ..w.with_s(dst, (w.s)(src0.0) & w.scalar(src1))
        },
        OpOf::SMulI32 { dst, src0, src1 } => w.with_s(dst, wrapped((w.s)(src0.0) * (w.s)(src1.0))),
        OpOf::SLshlB32 { dst, src, shift } => {
            let x = wrapped((w.s)(src.0) * pow2(shift as nat));
            Wave { scc: x != 0, ..w.with_s(dst, x) }
        },
        OpOf::SLshrB32 { dst, src, shift } => {
            let x = ((w.s)(src.0) as nat / pow2(shift as nat)) as u32;
            Wave { scc: x != 0, ..w.with_s(dst, x) }
        },
        OpOf::SCmpLtU32 { src0, src1 } => Wave { scc: (w.s)(src0.0) < (w.s)(src1.0), ..w },
        OpOf::SCmpGeU32 { src0, src1 } => Wave { scc: (w.s)(src0.0) >= (w.s)(src1.0), ..w },
        OpOf::SCmpEqU32 { src0, src1 } => Wave { scc: (w.s)(src0.0) == w.scalar(src1), ..w },
        OpOf::ClearVcc => Wave { vcc: |lane: u32| false, ..w },
        OpOf::Barrier | OpOf::SBarrier | OpOf::WaitVmcnt(_) | OpOf::WaitLgkmcnt(_)
        | OpOf::WaitVscnt(_) | OpOf::Label(_) => w,
        _ => arbitrary(),
    }
}

/// A wave behind operations on registers.
pub open spec fn wave_run(ops: Seq<OpText>, fl: Floats, w: Wave) -> Wave
    decreases ops.len(),
{
    if ops.len() == 0 {
        w
    } else {
        wave_step(ops.last(), fl, wave_run(ops.drop_last(), fl, w))
    }
}

/// Operations behind others.
pub proof fn lemma_wave_concat(a: Seq<OpText>, b: Seq<OpText>, fl: Floats, w: Wave)
    ensures
        wave_run(a + b, fl, w) == wave_run(b, fl, wave_run(a, fl, w)),
    decreases b.len(),
{
    if b.len() == 0 {
        assert(a + b =~= a);
    } else {
        lemma_wave_concat(a, b.drop_last(), fl, w);
        assert((a + b).drop_last() =~= a + b.drop_last());
    }
}

// ── From accumulators to matrix inputs ──
/// Whether eight registers of each of two groups and three others are all different, and none
/// of those that are written is the number of the thread.
pub open spec fn apart(dst: VReg, src: VReg, tmp: VReg) -> bool {
    &&& 1 <= dst.0 <= u32::MAX - 7
    &&& src.0 <= u32::MAX - 7
    &&& 1 <= tmp.0 <= u32::MAX - 2
    &&& dst.0 + 8 <= src.0 || src.0 + 8 <= dst.0
    &&& dst.0 + 8 <= tmp.0 || tmp.0 + 3 <= dst.0
    &&& src.0 + 8 <= tmp.0 || tmp.0 + 3 <= src.0
}

/// The registers behind the number of the half and the exchange of the halves.
proof fn lemma_exchanged(dst: VReg, src: VReg, tmp: VReg, n: nat, fl: Floats, w: Wave)
    requires
        apart(dst, src, tmp),
        n <= 8,
        forall|lane: u32| lane < 32 ==> #[trigger] (w.v)(0, lane) % 32 == lane,
    ensures
        ({
            let b = wave_run(transpose_ops(dst, src, tmp).take(2 + n as int), fl, w);
            &&& forall|lane: u32| lane < 32 ==> #[trigger] (b.vcc)(lane) == (lane < 16)
            &&& forall|r: u32, lane: u32|
                r != tmp.0 + 2 && !(dst.0 <= r < dst.0 + n) ==> #[trigger] (b.v)(r, lane) == (w.v)(
                    r,
                    lane,
                )
            &&& forall|r: u32, lane: u32|
                dst.0 <= r < dst.0 + n ==> #[trigger] (b.v)(r, lane) == (w.v)(
                    (src.0 + (r - dst.0)) as u32,
                    across(lane),
                )
        }),
    decreases n,
{
    let ops = transpose_ops(dst, src, tmp);
    let now = ops.take(2 + n as int);
    if n == 0 {
        let none = now.drop_last().drop_last();
        assert(none.len() == 0);
        assert(wave_run(none, fl, w) == w);
        let w1 = wave_run(now.drop_last(), fl, w);
        assert(now.drop_last().last() == ops[0]);
        assert(w1 == wave_step(ops[0], fl, w));
        assert(now.last() == ops[1]);
        let b = wave_run(now, fl, w);
        assert(b == wave_step(ops[1], fl, w1));
        assert forall|lane: u32| lane < 32 implies #[trigger] (b.vcc)(lane) == (lane < 16) by {
            let x = (w.v)(0, lane);
            assert(x & 31 == x % 32) by (bit_vector);
            assert((w1.v)((tmp.0 + 2) as u32, lane) == x & wrapped(31));
        }
    } else {
        let i = (n - 1) as nat;
        lemma_exchanged(dst, src, tmp, i, fl, w);
        assert(now.drop_last() =~= ops.take(2 + i as int));
        assert(now.last() == ops[2 + i as int]);
        assert(ops[2 + i as int] == OpText::VPermlanex16B32 {
            dst: VReg((dst.0 + i) as u32),
            src: VReg((src.0 + i) as u32),
        });
        let a = wave_run(ops.take(2 + i as int), fl, w);
        let b = wave_run(now, fl, w);
        assert(b == wave_step(ops[2 + i as int], fl, a));
        assert forall|r: u32, lane: u32| dst.0 <= r < dst.0 + n implies #[trigger] (b.v)(r, lane)
            == (w.v)((src.0 + (r - dst.0)) as u32, across(lane)) by {
            if r == dst.0 + i {
                assert((b.v)(r, lane) == (a.v)((src.0 + i) as u32, across(lane)));
            } else {
                assert((b.v)(r, lane) == (a.v)(r, lane));
            }
        }
    }
}

/// Halves of two words in one.
proof fn lemma_halves(lo: u32, hi: u32)
    ensures
        (hi & 0xFFFF_0000) | ((lo as nat / 0x1_0000) as u32) == packed(lo, hi),
{
    let a = (lo as nat / 0x1_0000) as u32;
    let b = (hi as nat / 0x1_0000) as u32;
    assert(a == lo / 0x1_0000u32 && b == hi / 0x1_0000u32);
    assert((hi & 0xFFFF_0000u32) | (lo / 0x1_0000u32) == (hi / 0x1_0000u32) * 0x1_0000u32 + lo
        / 0x1_0000u32) by (bit_vector);
    assert(b * 0x1_0000 + a <= u32::MAX);
}

/// One register is packed.
#[verifier::spinoff_prover]
proof fn lemma_packed_one(d: VReg, s: VReg, tmp: VReg, fl: Floats, w: Wave)
    requires
        d != s,
        tmp.0 <= u32::MAX - 2,
        d.0 < tmp.0 || d.0 > tmp.0 + 2,
        s.0 < tmp.0 || s.0 > tmp.0 + 2,
        forall|lane: u32| lane < 32 ==> #[trigger] (w.vcc)(lane) == (lane < 16),
    ensures
        ({
            let b = wave_run(pack_ops(d, s, tmp), fl, w);
            &&& b.vcc == w.vcc
            &&& forall|r: u32, lane: u32|
                r != d.0 && !(tmp.0 <= r <= tmp.0 + 2) ==> #[trigger] (b.v)(r, lane) == (w.v)(
                    r,
                    lane,
                )
            &&& forall|lane: u32|
                lane < 32 ==> #[trigger] (b.v)(d.0, lane) == if lane < 16 {
                    packed((w.v)(s.0, lane), (w.v)(d.0, lane))
                } else {
                    packed((w.v)(d.0, lane), (w.v)(s.0, lane))
                }
        }),
{
    vstd::arithmetic::power2::lemma2_to64();
    let ops = pack_ops(d, s, tmp);
    let w1 = wave_step(ops[0], fl, w);
    let w2 = wave_step(ops[1], fl, w1);
    let w3 = wave_step(ops[2], fl, w2);
    let b = wave_step(ops[3], fl, w3);
    assert(wave_run(ops, fl, w) == b) by {
        let a3 = ops.drop_last();
        let a2 = a3.drop_last();
        let a1 = a2.drop_last();
        assert(a1.drop_last() =~= Seq::empty());
        assert(wave_run(a1.drop_last(), fl, w) == w);
        assert(wave_run(a1, fl, w) == w1);
        assert(wave_run(a2, fl, w) == w2);
        assert(wave_run(a3, fl, w) == w3);
    }
    assert forall|lane: u32| lane < 32 implies #[trigger] (b.v)(d.0, lane) == if lane < 16 {
        packed((w.v)(s.0, lane), (w.v)(d.0, lane))
    } else {
        packed((w.v)(d.0, lane), (w.v)(s.0, lane))
    } by {
        assert((w.vcc)(lane) == (lane < 16));
        let even = if lane < 16 {
            (w.v)(s.0, lane)
        } else {
            (w.v)(d.0, lane)
        };
        let odd = if lane < 16 {
            (w.v)(d.0, lane)
        } else {
            (w.v)(s.0, lane)
        };
        assert((w2.v)(tmp.0, lane) == even);
        assert((w2.v)((tmp.0 + 1) as u32, lane) == odd);
        assert((w3.v)((tmp.0 + 2) as u32, lane) == (even as nat / 0x1_0000) as u32);
        lemma_halves(even, odd);
    }
}

/// The first registers are packed.
proof fn lemma_packed_all(dst: VReg, src: VReg, tmp: VReg, n: nat, fl: Floats, w: Wave)
    requires
        apart(dst, src, tmp),
        n <= 8,
        forall|lane: u32| lane < 32 ==> #[trigger] (w.vcc)(lane) == (lane < 16),
    ensures
        ({
            let b = wave_run(pack_all(dst, src, tmp, n), fl, w);
            &&& b.vcc == w.vcc
            &&& forall|r: u32, lane: u32|
                !(dst.0 <= r < dst.0 + n) && !(tmp.0 <= r <= tmp.0 + 2) ==> #[trigger] (b.v)(
                    r,
                    lane,
                ) == (w.v)(r, lane)
            &&& forall|r: u32, lane: u32|
                dst.0 <= r < dst.0 + n && lane < 32 ==> #[trigger] (b.v)(r, lane) == if lane < 16 {
                    packed((w.v)((src.0 + (r - dst.0)) as u32, lane), (w.v)(r, lane))
                } else {
                    packed((w.v)(r, lane), (w.v)((src.0 + (r - dst.0)) as u32, lane))
                }
        }),
    decreases n,
{
    if n > 0 {
        let i = (n - 1) as nat;
        lemma_packed_all(dst, src, tmp, i, fl, w);
        let d = VReg((dst.0 + i) as u32);
        let s = VReg((src.0 + i) as u32);
        let before = pack_all(dst, src, tmp, i);
        lemma_wave_concat(before, pack_ops(d, s, tmp), fl, w);
        let mid = wave_run(before, fl, w);
        lemma_packed_one(d, s, tmp, fl, mid);
        assert(pack_all(dst, src, tmp, n) == before + pack_ops(d, s, tmp));
    }
}

/// From accumulators to matrix inputs, whatever the registers hold: behind the operations,
/// register `i` of lane `l` holds the bf16 of register `i` of the accumulator of two lanes, that
/// of lane `l % 16` of the lower half of the wave below and that of lane `l % 16 + 16` above.
/// The accumulator and all other registers but the three scratch ones stay.
pub proof fn halves_of_the_wave_are_joined(dst: VReg, src: VReg, tmp: VReg, fl: Floats, w: Wave)
    requires
        apart(dst, src, tmp),
        forall|lane: u32| lane < 32 ==> #[trigger] (w.v)(0, lane) % 32 == lane,
    ensures
        ({
            let b = wave_run(transpose_ops(dst, src, tmp), fl, w);
            &&& forall|i: u32, lane: u32|
                i < 8 && lane < 32 ==> #[trigger] (b.v)((dst.0 + i) as u32, lane) == (w.v)(
                    (src.0 + i) as u32,
                    (lane % 16) as u32,
                ) as nat / 0x1_0000 + 0x1_0000 * ((w.v)(
                    (src.0 + i) as u32,
                    (lane % 16 + 16) as u32,
                ) as nat / 0x1_0000)
            &&& forall|r: u32, lane: u32|
                !(dst.0 <= r < dst.0 + 8) && !(tmp.0 <= r <= tmp.0 + 2) ==> #[trigger] (b.v)(
                    r,
                    lane,
                ) == (w.v)(r, lane)
        }),
{
    let ops = transpose_ops(dst, src, tmp);
    let mid = wave_run(ops.take(10), fl, w);
    lemma_exchanged(dst, src, tmp, 8, fl, w);
    lemma_packed_all(dst, src, tmp, 8, fl, mid);
    lemma_wave_concat(ops.take(10), pack_all(dst, src, tmp, 8), fl, w);
    assert(ops =~= ops.take(10) + pack_all(dst, src, tmp, 8));
    let b = wave_run(ops, fl, w);
    assert forall|i: u32, lane: u32| i < 8 && lane < 32 implies #[trigger] (b.v)(
        (dst.0 + i) as u32,
        lane,
    ) == (w.v)((src.0 + i) as u32, (lane % 16) as u32) as nat / 0x1_0000 + 0x1_0000 * ((w.v)(
        (src.0 + i) as u32,
        (lane % 16 + 16) as u32,
    ) as nat / 0x1_0000) by {
        let d = (dst.0 + i) as u32;
        let s = (src.0 + i) as u32;
        assert((mid.v)(d, lane) == (w.v)(s, across(lane)));
        assert((mid.v)(s, lane) == (w.v)(s, lane));
        assert((b.v)(d, lane) == if lane < 16 {
            packed((mid.v)(s, lane), (mid.v)(d, lane))
        } else {
            packed((mid.v)(d, lane), (mid.v)(s, lane))
        });
    }
}

} // verus!
