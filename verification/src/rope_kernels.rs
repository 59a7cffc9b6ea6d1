//! Kernels that rotate pairs of features by their position, and how they are launched.
use vstd::prelude::*;

use crate::block_dsl::{BNode, BVal, BlockKernel, BlockState, LN_2, LOG2_E, TWO};
use crate::block_dsl_to_ssa::{
    all_fit, fitting_kernels_can_be_translated, function_of, ranges_ascend,
};
use crate::lanes::{Access, Floats, Launch, lemma_product, stored, value, wrapped};
use crate::text::{dec, push_dec};
use crate::tile_ssa::UnaryOpKind;

verus! {

/// Threads per workgroup.
pub const WG_SIZE: u32 = 128;

/// The nodes of the kernel that rotates by the position of the row, with several heads per
/// position.
pub open spec fn rope_heads_nodes(n_heads_shift: u32) -> Seq<BNode<Seq<char>>> {
    seq![
        BNode::ArgPtr("x"@),
        BNode::ArgPtr("out"@),
        BNode::ArgU32("d_model"@),
        BNode::ArgU32("_reserved"@),
        BNode::ArgU32("pos_base"@),
        BNode::ArgF32("rope_theta"@),
        BNode::ThreadId,
        BNode::ProgramId(0),
        BNode::ShrConstU32(BVal(2), 1),
        BNode::LtU32(BVal(6), BVal(8)),
        BNode::MulU32(BVal(7), BVal(2)),
        BNode::AddU32(BVal(10), BVal(6)),
        BNode::AddU32(BVal(10), BVal(8)),
        BNode::AddU32(BVal(12), BVal(6)),
        BNode::Load { ptr: BVal(0), offsets: BVal(11), mask: BVal(9) },
        BNode::Load { ptr: BVal(0), offsets: BVal(13), mask: BVal(9) },
        BNode::CvtF32U32(BVal(6)),
        BNode::ConstF32(TWO),
        BNode::MulF32(BVal(16), BVal(17)),
        BNode::CvtF32U32(BVal(2)),
        BNode::RcpF32(BVal(19)),
        BNode::MulF32(BVal(18), BVal(20)),
        BNode::Log2F32(BVal(5)),
        BNode::ConstF32(LN_2),
        BNode::MulF32(BVal(22), BVal(23)),
        BNode::NegF32(BVal(24)),
        BNode::MulF32(BVal(21), BVal(25)),
        BNode::ConstF32(LOG2_E),
        BNode::MulF32(BVal(26), BVal(27)),
        BNode::ExpF32(BVal(28)),
        BNode::ShrConstU32(BVal(7), n_heads_shift as u8),
        BNode::AddU32(BVal(4), BVal(30)),
        BNode::CvtF32U32(BVal(31)),
        BNode::MulF32(BVal(32), BVal(29)),
        BNode::CosF32(BVal(33)),
        BNode::SinF32(BVal(33)),
        BNode::MulF32(BVal(14), BVal(34)),
        BNode::MulF32(BVal(15), BVal(35)),
        BNode::SubF32(BVal(36), BVal(37)),
        BNode::MulF32(BVal(14), BVal(35)),
        BNode::MulF32(BVal(15), BVal(34)),
        BNode::AddF32(BVal(39), BVal(40)),
        BNode::Store { ptr: BVal(1), offsets: BVal(11), val: BVal(38), mask: BVal(9) },
        BNode::Store { ptr: BVal(1), offsets: BVal(13), val: BVal(41), mask: BVal(9) },
    ]
}

/// The nodes of the kernel that rotates by the position of the row.
pub open spec fn rope_rows_nodes() -> Seq<BNode<Seq<char>>> {
    seq![
        BNode::ArgPtr("x"@),
        BNode::ArgPtr("out"@),
        BNode::ArgU32("d_model"@),
        BNode::ArgU32("_reserved"@),
        BNode::ArgU32("pos_base"@),
        BNode::ArgF32("rope_theta"@),
        BNode::ThreadId,
        BNode::ProgramId(0),
        BNode::ShrConstU32(BVal(2), 1),
        BNode::LtU32(BVal(6), BVal(8)),
        BNode::MulU32(BVal(7), BVal(2)),
        BNode::AddU32(BVal(10), BVal(6)),
        BNode::AddU32(BVal(10), BVal(8)),
        BNode::AddU32(BVal(12), BVal(6)),
        BNode::Load { ptr: BVal(0), offsets: BVal(11), mask: BVal(9) },
        BNode::Load { ptr: BVal(0), offsets: BVal(13), mask: BVal(9) },
        BNode::CvtF32U32(BVal(6)),
        BNode::ConstF32(TWO),
        BNode::MulF32(BVal(16), BVal(17)),
        BNode::CvtF32U32(BVal(2)),
        BNode::RcpF32(BVal(19)),
        BNode::MulF32(BVal(18), BVal(20)),
        BNode::Log2F32(BVal(5)),
        BNode::ConstF32(LN_2),
        BNode::MulF32(BVal(22), BVal(23)),
        BNode::NegF32(BVal(24)),
        BNode::MulF32(BVal(21), BVal(25)),
        BNode::ConstF32(LOG2_E),
        BNode::MulF32(BVal(26), BVal(27)),
        BNode::ExpF32(BVal(28)),
        BNode::AddU32(BVal(4), BVal(7)),
        BNode::CvtF32U32(BVal(30)),
        BNode::MulF32(BVal(31), BVal(29)),
        BNode::CosF32(BVal(32)),
        BNode::SinF32(BVal(32)),
        BNode::MulF32(BVal(14), BVal(33)),
        BNode::MulF32(BVal(15), BVal(34)),
        BNode::SubF32(BVal(35), BVal(36)),
        BNode::MulF32(BVal(14), BVal(34)),
        BNode::MulF32(BVal(15), BVal(33)),
        BNode::AddF32(BVal(38), BVal(39)),
        BNode::Store { ptr: BVal(1), offsets: BVal(11), val: BVal(37), mask: BVal(9) },
        BNode::Store { ptr: BVal(1), offsets: BVal(13), val: BVal(40), mask: BVal(9) },
    ]
}

/// Builds the kernel that rotates by position; `2^n_heads_shift` rows share one.
pub fn build_rope_forward(n_heads_shift: u32) -> (r: BlockKernel)
    ensures
        n_heads_shift > 0 ==> r@ == (BlockState {
            nodes: rope_heads_nodes(n_heads_shift),
            stores: seq![BVal(42), BVal(43)],
            ..BlockState::empty("rope_fwd_s"@ + dec(n_heads_shift as nat), WG_SIZE)
        }),
        n_heads_shift == 0 ==> r@ == (BlockState {
            nodes: rope_rows_nodes(),
            stores: seq![BVal(41), BVal(42)],
            ..BlockState::empty("rope_fwd_s"@ + dec(0), WG_SIZE)
        }),
        r@.wf(),
{
    let mut name = String::new();
    name.append("rope_fwd_s");
    push_dec(&mut name, n_heads_shift as u64);
    assert(name@ =~= "rope_fwd_s"@ + dec(n_heads_shift as nat));
    let mut kb = BlockKernel::new(name.as_str(), WG_SIZE);
    let x_ptr = kb.arg_ptr("x");
    let out_ptr = kb.arg_ptr("out");
    let d_model = kb.arg_u32("d_model");
    let _reserved = kb.arg_u32("_reserved");
    let pos_base = kb.arg_u32("pos_base");
    let rope_theta = kb.arg_f32("rope_theta");
    let tid = kb.thread_id();
    let pid = kb.program_id(0);
    let half_d = d_model.shr(&mut kb, 1);
    let pair_mask = tid.lt(&mut kb, half_d);
    let row_base = pid.mul(&mut kb, d_model);
    let first_off = row_base.add(&mut kb, tid);
    let second_off = row_base.add(&mut kb, half_d).add(&mut kb, tid);
    let x_first = kb.load(x_ptr, first_off, pair_mask);
    let x_second = kb.load(x_ptr, second_off, pair_mask);
    let tid_f32 = tid.to_f32(&mut kb);
    let two_f = kb.const_f32(TWO);
    let two_tid_f = tid_f32.mul(&mut kb, two_f);
    let d_model_f = d_model.to_f32(&mut kb);
    let inv_d_model = d_model_f.rcp(&mut kb);
    let ratio = two_tid_f.mul(&mut kb, inv_d_model);
    let ln_theta = rope_theta.log(&mut kb);
    let neg_ln_theta = ln_theta.neg(&mut kb);
    let log_freq = ratio.mul(&mut kb, neg_ln_theta);
    let freq = log_freq.exp(&mut kb);
    let token_idx = if n_heads_shift > 0 {
        pid.shr(&mut kb, n_heads_shift as u8)
    } else {
        pid
    };
    let pos = pos_base.add(&mut kb, token_idx);
    let pos_f = pos.to_f32(&mut kb);
    let theta = pos_f.mul(&mut kb, freq);
    let cos_theta = theta.cos(&mut kb);
    let sin_theta = theta.sin(&mut kb);
    let xc = x_first.mul(&mut kb, cos_theta);
    let xs = x_second.mul(&mut kb, sin_theta);
    let out_first = xc.sub(&mut kb, xs);
    let xe_sin = x_first.mul(&mut kb, sin_theta);
    let xo_cos = x_second.mul(&mut kb, cos_theta);
    let out_second = xe_sin.add(&mut kb, xo_cos);
    kb.store(out_ptr, first_off, out_first, pair_mask);
    kb.store(out_ptr, second_off, out_second, pair_mask);
    kb
}

/// The nodes of the kernel that rotates gradients back.
pub open spec fn rope_backward_nodes() -> Seq<BNode<Seq<char>>> {
    seq![
        BNode::ArgPtr("dout"@),
        BNode::ArgPtr("dx"@),
        BNode::ArgU32("d_model"@),
        BNode::ArgU32("n_tokens"@),
        BNode::ArgU32("pos_base"@),
        BNode::ArgF32("rope_theta"@),
        BNode::ThreadId,
        BNode::ProgramId(0),
        BNode::ShrConstU32(BVal(2), 1),
        BNode::LtU32(BVal(6), BVal(8)),
        BNode::MulU32(BVal(7), BVal(2)),
        BNode::AddU32(BVal(10), BVal(6)),
        BNode::AddU32(BVal(10), BVal(8)),
        BNode::AddU32(BVal(12), BVal(6)),
        BNode::Load { ptr: BVal(0), offsets: BVal(11), mask: BVal(9) },
        BNode::Load { ptr: BVal(0), offsets: BVal(13), mask: BVal(9) },
        BNode::CvtF32U32(BVal(6)),
        BNode::ConstF32(TWO),
        BNode::MulF32(BVal(16), BVal(17)),
        BNode::CvtF32U32(BVal(2)),
        BNode::RcpF32(BVal(19)),
        BNode::MulF32(BVal(18), BVal(20)),
        BNode::Log2F32(BVal(5)),
        BNode::ConstF32(LN_2),
        BNode::MulF32(BVal(22), BVal(23)),
        BNode::NegF32(BVal(24)),
        BNode::MulF32(BVal(21), BVal(25)),
        BNode::ConstF32(LOG2_E),
        BNode::MulF32(BVal(26), BVal(27)),
        BNode::ExpF32(BVal(28)),
        BNode::AddU32(BVal(4), BVal(7)),
        BNode::CvtF32U32(BVal(30)),
        BNode::MulF32(BVal(31), BVal(29)),
        BNode::CosF32(BVal(32)),
        BNode::SinF32(BVal(32)),
        BNode::MulF32(BVal(14), BVal(33)),
        BNode::MulF32(BVal(15), BVal(34)),
        BNode::AddF32(BVal(35), BVal(36)),
        BNode::MulF32(BVal(14), BVal(34)),
        BNode::NegF32(BVal(38)),
        BNode::MulF32(BVal(15), BVal(33)),
        BNode::AddF32(BVal(39), BVal(40)),
        BNode::Store { ptr: BVal(1), offsets: BVal(11), val: BVal(37), mask: BVal(9) },
        BNode::Store { ptr: BVal(1), offsets: BVal(13), val: BVal(41), mask: BVal(9) },
    ]
}

/// Builds the kernel that rotates gradients back.
pub fn build_rope_backward() -> (r: BlockKernel)
    ensures
        r@ == (BlockState {
            nodes: rope_backward_nodes(),
            stores: seq![BVal(42), BVal(43)],
            ..BlockState::empty("rope_bwd"@, WG_SIZE)
        }),
        r@.wf(),
{
    let mut kb = BlockKernel::new("rope_bwd", WG_SIZE);
    let dout_ptr = kb.arg_ptr("dout");
    let dx_ptr = kb.arg_ptr("dx");
    let d_model = kb.arg_u32("d_model");
    let _n_tokens = kb.arg_u32("n_tokens");
    let pos_base = kb.arg_u32("pos_base");
    let rope_theta = kb.arg_f32("rope_theta");
    let tid = kb.thread_id();
    let pid = kb.program_id(0);
    let half_d = d_model.shr(&mut kb, 1);
    let pair_mask = tid.lt(&mut kb, half_d);
    let row_base = pid.mul(&mut kb, d_model);
    let first_off = row_base.add(&mut kb, tid);
    let second_off = row_base.add(&mut kb, half_d).add(&mut kb, tid);
    let dout_first = kb.load(dout_ptr, first_off, pair_mask);
    let dout_second = kb.load(dout_ptr, second_off, pair_mask);
    let tid_f32 = tid.to_f32(&mut kb);
    let two_f = kb.const_f32(TWO);
    let two_tid_f = tid_f32.mul(&mut kb, two_f);
    let d_model_f = d_model.to_f32(&mut kb);
    let inv_d_model = d_model_f.rcp(&mut kb);
    let ratio = two_tid_f.mul(&mut kb, inv_d_model);
    let ln_theta = rope_theta.log(&mut kb);
    let neg_ln_theta = ln_theta.neg(&mut kb);
    let log_freq = ratio.mul(&mut kb, neg_ln_theta);
    let freq = log_freq.exp(&mut kb);
    let pos = pos_base.add(&mut kb, pid);
    let pos_f = pos.to_f32(&mut kb);
    let theta = pos_f.mul(&mut kb, freq);
    let cos_theta = theta.cos(&mut kb);
    let sin_theta = theta.sin(&mut kb);
    let dc = dout_first.mul(&mut kb, cos_theta);
    let ds = dout_second.mul(&mut kb, sin_theta);
    let dx_first = dc.add(&mut kb, ds);
    let neg_de_sin = dout_first.mul(&mut kb, sin_theta).neg(&mut kb);
    let do_cos = dout_second.mul(&mut kb, cos_theta);
    let dx_second = neg_de_sin.add(&mut kb, do_cos);
    kb.store(dx_ptr, first_off, dx_first, pair_mask);
    kb.store(dx_ptr, second_off, dx_second, pair_mask);
    kb
}

/// The grid for one workgroup per token.
pub fn rope_grid(n_tokens: u32) -> (r: (u32, u32))
    requires
        n_tokens * WG_SIZE <= u32::MAX,
    ensures
        r.0 == n_tokens * WG_SIZE,
        r.1 == 1,
{
    (n_tokens * WG_SIZE, 1)
}

/// Threads per workgroup.
pub fn rope_wg_size() -> (r: u32)
    ensures
        r == WG_SIZE,
{
    WG_SIZE
}

// ── Translation ──
/// Each kernel that rotates translates to a function, however many rows share a position.
pub proof fn rope_kernels_translate(k: BlockState, n_heads_shift: u32)
    requires
        k.nodes == rope_heads_nodes(n_heads_shift)
            || k.nodes == rope_rows_nodes()
            || k.nodes == rope_backward_nodes(),
    ensures
        ranges_ascend(k.nodes),
        function_of(k) is Ok,
{
    if k.nodes == rope_heads_nodes(n_heads_shift) {
        lemma_rope_heads_fit(k, n_heads_shift);
    } else if k.nodes == rope_rows_nodes() {
        lemma_rope_rows_fit(k);
    } else if k.nodes == rope_backward_nodes() {
        lemma_rope_backward_fit(k);
    }
    fitting_kernels_can_be_translated(k);
}

#[verifier::rlimit(60)]
#[verifier::spinoff_prover]
proof fn lemma_rope_heads_fit(k: BlockState, n_heads_shift: u32)
    requires
        k.nodes == rope_heads_nodes(n_heads_shift),
    ensures
        all_fit(k, k.nodes.len()),
{
    reveal_with_fuel(all_fit, 45);
    assert(all_fit(k, 44));
}

#[verifier::rlimit(60)]
#[verifier::spinoff_prover]
proof fn lemma_rope_rows_fit(k: BlockState)
    requires
        k.nodes == rope_rows_nodes(),
    ensures
        all_fit(k, k.nodes.len()),
{
    reveal_with_fuel(all_fit, 44);
    assert(all_fit(k, 43));
}

#[verifier::rlimit(60)]
#[verifier::spinoff_prover]
proof fn lemma_rope_backward_fit(k: BlockState)
    requires
        k.nodes == rope_backward_nodes(),
    ensures
        all_fit(k, k.nodes.len()),
{
    reveal_with_fuel(all_fit, 45);
    assert(all_fit(k, 44));
}

// ── What the kernels do ──
/// A pair of features that a thread rotates: where they lie, what they are, and the cosine
/// and sine of their angle.
pub struct Pair {
    /// How many pairs a row has.
    pub half: u32,
    pub first: int,
    pub second: int,
    pub a: u32,
    pub b: u32,
    pub cos: u32,
    pub sin: u32,
}

/// How fast pair `t` turns: `1 / theta^(2t / d)`, taken as `exp(-(2t / d) * ln(theta))`.
pub open spec fn speed(f: Floats, t: u32, d: u32, theta: u32) -> u32 {
    let part = f.times(f.times((f.of_word)(t), TWO), f.apply(UnaryOpKind::Rcp, (f.of_word)(d)));
    let log = f.times(f.apply(UnaryOpKind::Log2, theta), LN_2);
    let power = f.times(f.times(part, f.apply(UnaryOpKind::Neg, log)), LOG2_E);
    f.apply(UnaryOpKind::Exp2, power)
}

/// The angle of pair `t` at a position.
pub open spec fn angle(f: Floats, t: u32, d: u32, theta: u32, position: u32) -> u32 {
    f.times((f.of_word)(position), speed(f, t, d, theta))
}

impl Pair {
    /// The pair of a thread at a position.
    pub open spec fn of(l: Launch, t: u32, position: u32) -> Pair {
        let (row, d) = ((l.group)(0), (l.args)(2));
        let half = (d / 2) as u32;
        let at = angle(l.floats, t, d, (l.args)(5), position);
        Pair {
            half,
            first: row * d + t,
            second: row * d + half + t,
            a: (l.words)(0, row * d + t),
            b: (l.words)(0, row * d + half + t),
            cos: l.floats.apply(UnaryOpKind::Cos, at),
            sin: l.floats.apply(UnaryOpKind::Sin, at),
        }
    }

    /// What a thread stores: a word at a place, if there is such a pair.
    pub open spec fn store(self, t: u32, place: int, word: u32) -> Option<Access> {
        if t < self.half {
            Some(Access { ptr: 1, place, word })
        } else {
            None
        }
    }
}

/// The position of a row.
pub open spec fn own_position(l: Launch) -> u32 {
    wrapped((l.args)(4) + (l.group)(0))
}

/// The position of a row where `2^n_heads_shift` rows share one.
pub open spec fn shared_position(l: Launch, n_heads_shift: u32) -> u32 {
    wrapped((l.args)(4) + ((l.group)(0) >> (n_heads_shift as u8 as u32)))
}

/// `a * cos - b * sin`.
pub open spec fn rotated_first(f: Floats, p: Pair) -> u32 {
    f.minus(f.times(p.a, p.cos), f.times(p.b, p.sin))
}

/// `a * sin + b * cos`.
pub open spec fn rotated_second(f: Floats, p: Pair) -> u32 {
    f.plus(f.times(p.a, p.sin), f.times(p.b, p.cos))
}

/// `a * cos + b * sin`.
pub open spec fn restored_first(f: Floats, p: Pair) -> u32 {
    f.plus(f.times(p.a, p.cos), f.times(p.b, p.sin))
}

/// `-(a * sin) + b * cos`.
pub open spec fn restored_second(f: Floats, p: Pair) -> u32 {
    f.plus(f.apply(UnaryOpKind::Neg, f.times(p.a, p.sin)), f.times(p.b, p.cos))
}

/// Whether a thread is one of a workgroup of 128, and places in the row are words.
pub open spec fn rope_runs(k: BlockState, l: Launch, t: u32) -> bool {
    &&& k.block_x == WG_SIZE
    &&& t < WG_SIZE
    &&& (l.group)(0) * (l.args)(2) + (l.args)(2) / 2 + t <= u32::MAX
}

/// What the kernels have in common: where the pair lies, and the factor of the position in its
/// angle.
proof fn lemma_rope_pair(k: BlockState, l: Launch, t: u32)
    requires
        rope_runs(k, l, t),
        k.nodes[0] is ArgPtr,
        k.nodes[1] is ArgPtr,
        k.nodes[2] is ArgU32,
        k.nodes[4] is ArgU32,
        k.nodes[5] is ArgF32,
        k.nodes[6] is ThreadId,
        k.nodes[7] == BNode::<Seq<char>>::ProgramId(0),
        forall|i: int| 8 <= i < 30 ==> #[trigger] k.nodes[i] == rope_rows_nodes()[i],
    ensures
        ({
            let (row, d, f) = ((l.group)(0), (l.args)(2), l.floats);
            let half = d / 2;
            let v = |i: int| value(k, l, t, i);
            &&& v(0) == 0 && v(1) == 1 && v(4) == (l.args)(4) && v(7) == row
            &&& v(9) != 0 <==> t < half
            &&& v(11) == row * d + t
            &&& v(13) == row * d + half + t
            &&& t < half ==> v(14) == (l.words)(0, row * d + t)
            &&& t < half ==> v(15) == (l.words)(0, row * d + half + t)
            &&& v(29) == speed(f, t, d, (l.args)(5))
        }),
{
    let (row, d, f) = ((l.group)(0), (l.args)(2), l.floats);
    let half = d / 2;
    let theta = (l.args)(5);
    let v = |i: int| value(k, l, t, i);
    let s = rope_rows_nodes();
    assert(s[8] == BNode::<Seq<char>>::ShrConstU32(BVal(2), 1));
    assert(v(0) == 0 && v(1) == 1 && v(2) == d && v(4) == (l.args)(4) && v(5) == theta);
    assert(v(6) == t && v(7) == row);
    assert(d >> 1u32 == d / 2) by (bit_vector);
    assert(v(8) == half);
    assert(v(9) != 0 <==> t < half);
    lemma_product(k, l, t, 10, BVal(7), BVal(2), row as int, d as int);
    assert(v(11) == row * d + t && v(12) == row * d + half);
    assert(v(13) == row * d + half + t);
    if t < half {
        assert(v(14) == (l.words)(0, row * d + t));
        assert(v(15) == (l.words)(0, row * d + half + t));
    }
    assert(v(16) == (f.of_word)(t) && v(17) == TWO);
    assert(v(18) == f.times(v(16), v(17)) && v(19) == (f.of_word)(d));
    assert(v(20) == f.apply(UnaryOpKind::Rcp, v(19)));
    assert(v(21) == f.times(v(18), v(20)));
    assert(v(22) == f.apply(UnaryOpKind::Log2, theta) && v(23) == LN_2);
    assert(v(24) == f.times(v(22), v(23)));
    assert(v(25) == f.apply(UnaryOpKind::Neg, v(24)));
    assert(v(26) == f.times(v(21), v(25)) && v(27) == LOG2_E);
    assert(v(28) == f.times(v(26), v(27)));
    assert(v(29) == f.apply(UnaryOpKind::Exp2, v(28)));
}

/// Rotating: a thread stores its pair of features rotated by the angle of its position, which
/// `2^n_heads_shift` rows share.
pub proof fn rope_heads_rotate(k: BlockState, l: Launch, t: u32, n_heads_shift: u32)
    requires
        k.nodes == rope_heads_nodes(n_heads_shift),
        rope_runs(k, l, t),
    ensures
        ({
            let pair = Pair::of(l, t, shared_position(l, n_heads_shift));
            &&& stored(k, l, t, 42) == pair.store(t, pair.first, rotated_first(l.floats, pair))
            &&& stored(k, l, t, 43) == pair.store(t, pair.second, rotated_second(l.floats, pair))
        }),
{
    let pair = Pair::of(l, t, shared_position(l, n_heads_shift));
    let f = l.floats;
    let v = |i: int| value(k, l, t, i);
    assert forall|i: int| 8 <= i < 30 implies #[trigger] k.nodes[i] == rope_rows_nodes()[i] by {}
    lemma_rope_pair(k, l, t);
    assert(v(30) == (l.group)(0) >> (n_heads_shift as u8 as u32));
    assert(v(31) == shared_position(l, n_heads_shift));
    assert(v(32) == (f.of_word)(v(31)));
    assert(v(33) == f.times(v(32), v(29)));
    assert(v(33) == angle(f, t, (l.args)(2), (l.args)(5), v(31)));
    assert(v(34) == pair.cos && v(35) == pair.sin);
    if t < pair.half {
        assert(v(36) == f.times(pair.a, pair.cos));
        assert(v(37) == f.times(pair.b, pair.sin));
        assert(v(38) == rotated_first(f, pair));
        assert(v(39) == f.times(pair.a, pair.sin));
        assert(v(40) == f.times(pair.b, pair.cos));
        assert(v(41) == rotated_second(f, pair));
    }
}

/// Rotating: a thread stores its pair of features rotated by the angle of its row.
pub proof fn rope_rows_rotate(k: BlockState, l: Launch, t: u32)
    requires
        k.nodes == rope_rows_nodes(),
        rope_runs(k, l, t),
    ensures
        ({
            let pair = Pair::of(l, t, own_position(l));
            &&& stored(k, l, t, 41) == pair.store(t, pair.first, rotated_first(l.floats, pair))
            &&& stored(k, l, t, 42) == pair.store(t, pair.second, rotated_second(l.floats, pair))
        }),
{
    let pair = Pair::of(l, t, own_position(l));
    let f = l.floats;
    let v = |i: int| value(k, l, t, i);
    assert forall|i: int| 8 <= i < 30 implies #[trigger] k.nodes[i] == rope_rows_nodes()[i] by {}
    lemma_rope_pair(k, l, t);
    assert(v(30) == own_position(l));
    assert(v(31) == (f.of_word)(v(30)));
    assert(v(32) == f.times(v(31), v(29)));
    assert(v(32) == angle(f, t, (l.args)(2), (l.args)(5), v(30)));
    assert(v(33) == pair.cos && v(34) == pair.sin);
    if t < pair.half {
        assert(v(35) == f.times(pair.a, pair.cos));
        assert(v(36) == f.times(pair.b, pair.sin));
        assert(v(37) == rotated_first(f, pair));
        assert(v(38) == f.times(pair.a, pair.sin));
        assert(v(39) == f.times(pair.b, pair.cos));
        assert(v(40) == rotated_second(f, pair));
    }
}

/// Rotating back: a thread stores its pair of gradients rotated by the opposite angle.
pub proof fn rope_backward_rotates_back(k: BlockState, l: Launch, t: u32)
    requires
        k.nodes == rope_backward_nodes(),
        rope_runs(k, l, t),
    ensures
        ({
            let pair = Pair::of(l, t, own_position(l));
            &&& stored(k, l, t, 42) == pair.store(t, pair.first, restored_first(l.floats, pair))
            &&& stored(k, l, t, 43) == pair.store(t, pair.second, restored_second(l.floats, pair))
        }),
{
    let pair = Pair::of(l, t, own_position(l));
    let f = l.floats;
    let v = |i: int| value(k, l, t, i);
    assert forall|i: int| 8 <= i < 30 implies #[trigger] k.nodes[i] == rope_rows_nodes()[i] by {}
    lemma_rope_pair(k, l, t);
    assert(v(30) == own_position(l));
    assert(v(31) == (f.of_word)(v(30)));
    assert(v(32) == f.times(v(31), v(29)));
    assert(v(32) == angle(f, t, (l.args)(2), (l.args)(5), v(30)));
    assert(v(33) == pair.cos && v(34) == pair.sin);
    if t < pair.half {
        assert(v(35) == f.times(pair.a, pair.cos));
        assert(v(36) == f.times(pair.b, pair.sin));
        assert(v(37) == restored_first(f, pair));
        assert(v(38) == f.times(pair.a, pair.sin));
        assert(v(39) == f.apply(UnaryOpKind::Neg, v(38)));
        assert(v(40) == f.times(pair.b, pair.cos));
        assert(v(41) == restored_second(f, pair));
    }
}

} // verus!
