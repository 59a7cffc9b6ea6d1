//! A kernel for attention with one query per head, and how it is launched.
use vstd::prelude::*;

use crate::block_dsl::{BNode, BVal, BlockKernel, BlockState, LOG2_E, NEG_INFINITY};
use crate::block_dsl_to_ssa::{
    all_fit, fitting_kernels_can_be_translated, function_of, ranges_ascend,
};
use crate::lanes::{
    Access, Floats, Launch, exp_of, lemma_group_values, lemma_product, shared_store, stored, value,
};
use crate::tile_ssa::{BinOpKind, ReduceKind, UnaryOpKind};

verus! {

/// The nodes of the kernel that attends with one query per head, in one pass over keys and values.
pub open spec fn flash_attn_decode_nodes(
    head_dim: u32,
    gqa_ratio_log2: u8,
) -> Seq<BNode<Seq<char>>> {
    seq![
        BNode::ArgPtr("Q"@),
        BNode::ArgPtr("K"@),
        BNode::ArgPtr("V"@),
        BNode::ArgPtr("out"@),
        BNode::ArgF32("scale"@),
        BNode::ArgU32("head_dim"@),
        BNode::ArgU32("kv_len"@),
        BNode::ArgU32("kv_stride"@),
        BNode::Arange { start: 0, end: head_dim },
        BNode::ProgramId(0),
        BNode::ShrConstU32(BVal(9), gqa_ratio_log2),
        BNode::MulU32(BVal(10), BVal(5)),
        BNode::MulU32(BVal(9), BVal(5)),
        BNode::LtU32(BVal(8), BVal(5)),
        BNode::AddU32(BVal(12), BVal(8)),
        BNode::Load { ptr: BVal(0), offsets: BVal(14), mask: BVal(13) },
        BNode::LdsAlloc { size_bytes: ((head_dim + 2) * 4) as u32 },
        BNode::ConstU32(head_dim),
        BNode::ConstU32((head_dim + 1) as u32),
        BNode::ConstU32(0),
        BNode::ConstF32(0),
        BNode::ConstF32(NEG_INFINITY),
        BNode::ConstU32(1),
        BNode::LdsStore { base: BVal(16), offset: BVal(8), val: BVal(20) },
        BNode::LdsStore { base: BVal(16), offset: BVal(17), val: BVal(21) },
        BNode::LdsStore { base: BVal(16), offset: BVal(18), val: BVal(20) },
        BNode::Barrier,
        BNode::ForBegin { start: BVal(19), end: BVal(6), step: 1 },
        BNode::LdsLoad { base: BVal(16), offset: BVal(17) },
        BNode::LdsLoad { base: BVal(16), offset: BVal(18) },
        BNode::LdsLoad { base: BVal(16), offset: BVal(8) },
        BNode::MulU32(BVal(27), BVal(7)),
        BNode::AddU32(BVal(31), BVal(11)),
        BNode::AddU32(BVal(32), BVal(8)),
        BNode::Load { ptr: BVal(1), offsets: BVal(33), mask: BVal(13) },
        BNode::MulF32(BVal(15), BVal(34)),
        BNode::WgReduceAddF32(BVal(35)),
        BNode::MulF32(BVal(36), BVal(4)),
        BNode::AddU32(BVal(32), BVal(8)),
        BNode::Load { ptr: BVal(2), offsets: BVal(38), mask: BVal(13) },
        BNode::MaxF32(BVal(28), BVal(37)),
        BNode::SubF32(BVal(28), BVal(40)),
        BNode::ConstF32(LOG2_E),
        BNode::MulF32(BVal(41), BVal(42)),
        BNode::ExpF32(BVal(43)),
        BNode::SubF32(BVal(37), BVal(40)),
        BNode::ConstF32(LOG2_E),
        BNode::MulF32(BVal(45), BVal(46)),
        BNode::ExpF32(BVal(47)),
        BNode::MulF32(BVal(29), BVal(44)),
        BNode::AddF32(BVal(49), BVal(48)),
        BNode::MulF32(BVal(48), BVal(39)),
        BNode::MulF32(BVal(30), BVal(44)),
        BNode::AddF32(BVal(52), BVal(51)),
        BNode::LdsStore { base: BVal(16), offset: BVal(8), val: BVal(53) },
        BNode::LdsStore { base: BVal(16), offset: BVal(17), val: BVal(40) },
        BNode::LdsStore { base: BVal(16), offset: BVal(18), val: BVal(50) },
        BNode::Barrier,
        BNode::ForEnd { begin_node: 27 },
        BNode::LdsLoad { base: BVal(16), offset: BVal(18) },
        BNode::LdsLoad { base: BVal(16), offset: BVal(8) },
        BNode::RcpF32(BVal(59)),
        BNode::MulF32(BVal(60), BVal(61)),
        BNode::AddU32(BVal(12), BVal(8)),
        BNode::Store { ptr: BVal(3), offsets: BVal(63), val: BVal(62), mask: BVal(13) },
    ]
}

/// Builds the kernel that attends with one query per head, in one pass over keys and values.
pub fn build_flash_attn_decode(head_dim: u32, gqa_ratio_log2: u8) -> (r: BlockKernel)
    requires
        32 <= head_dim <= 1024,
    ensures
        r@ == (BlockState {
            nodes: flash_attn_decode_nodes(head_dim, gqa_ratio_log2),
            stores: seq![BVal(64)],
            ..BlockState::empty("flash_attn_decode"@, head_dim)
        }),
        r@.wf(),
{
    let mut kb = BlockKernel::new("flash_attn_decode", head_dim);
    let q_ptr = kb.arg_ptr("Q");
    let k_ptr = kb.arg_ptr("K");
    let v_ptr = kb.arg_ptr("V");
    let out_ptr = kb.arg_ptr("out");
    let scale = kb.arg_f32("scale");
    let head_dim_arg = kb.arg_u32("head_dim");
    let kv_len = kb.arg_u32("kv_len");
    let kv_stride = kb.arg_u32("kv_stride");
    let tid = kb.arange(0, head_dim);
    let pid = kb.program_id(0);
    let kv_h = pid.shr(&mut kb, gqa_ratio_log2);
    let kv_h_offset = kv_h.mul(&mut kb, head_dim_arg);
    let h_offset = pid.mul(&mut kb, head_dim_arg);
    let d_mask = tid.lt(&mut kb, head_dim_arg);
    let q_offset = h_offset.add(&mut kb, tid);
    let q_val = kb.load(q_ptr, q_offset, d_mask);
    let lds_base = kb.lds_alloc((head_dim + 2) * 4);
    let offset_max = kb.const_u32(head_dim);
    let offset_sum = kb.const_u32(head_dim + 1);
    let zero_u = kb.const_u32(0);
    let zero_f = kb.const_f32(0);
    let neg_inf = kb.const_f32(NEG_INFINITY);
    let one_u = kb.const_u32(1);
    kb.lds_store(lds_base, tid, zero_f);
    kb.lds_store(lds_base, offset_max, neg_inf);
    kb.lds_store(lds_base, offset_sum, zero_f);
    kb.barrier();
    let iter = kb.for_range(zero_u, kv_len, 1);
    let old_max = kb.lds_load(lds_base, offset_max);
    let old_sum = kb.lds_load(lds_base, offset_sum);
    let old_acc = kb.lds_load(lds_base, tid);
    let kv_row_base = iter.mul(&mut kb, kv_stride).add(&mut kb, kv_h_offset);
    let k_offset = kv_row_base.add(&mut kb, tid);
    let k_val = kb.load(k_ptr, k_offset, d_mask);
    let qk = q_val.mul(&mut kb, k_val);
    let dot = kb.wg_reduce_sum(qk);
    let score = dot.mul(&mut kb, scale);
    let v_offset = kv_row_base.add(&mut kb, tid);
    let v_val = kb.load(v_ptr, v_offset, d_mask);
    let new_max = old_max.max(&mut kb, score);
    let diff_old = old_max.sub(&mut kb, new_max);
    let correction = diff_old.exp(&mut kb);
    let diff_score = score.sub(&mut kb, new_max);
    let exp_score = diff_score.exp(&mut kb);
    let old_sum_scaled = old_sum.mul(&mut kb, correction);
    let new_sum = old_sum_scaled.add(&mut kb, exp_score);
    let weighted_v = exp_score.mul(&mut kb, v_val);
    let old_acc_scaled = old_acc.mul(&mut kb, correction);
    let new_acc = old_acc_scaled.add(&mut kb, weighted_v);
    kb.lds_store(lds_base, tid, new_acc);
    kb.lds_store(lds_base, offset_max, new_max);
    kb.lds_store(lds_base, offset_sum, new_sum);
    kb.barrier();
    kb.end_for(iter);
    let final_sum = kb.lds_load(lds_base, offset_sum);
    let final_acc = kb.lds_load(lds_base, tid);
    let inv_sum = final_sum.rcp(&mut kb);
    let result = final_acc.mul(&mut kb, inv_sum);
    let out_offset = h_offset.add(&mut kb, tid);
    kb.store(out_ptr, out_offset, result, d_mask);
    kb
}

/// The grid for one workgroup per head.
pub fn flash_attn_decode_grid(n_heads: u32, head_dim: u32) -> (r: (u32, u32))
    requires
        n_heads * head_dim <= u32::MAX,
    ensures
        r.0 == n_heads * head_dim,
        r.1 == 1,
{
    (n_heads * head_dim, 1)
}

// ── Translation ──
/// The kernel translates to a function, whatever the size of a head and however many heads
/// share keys and values.
#[verifier::rlimit(60)]
#[verifier::spinoff_prover]
pub proof fn flash_attn_kernels_translate(k: BlockState, head_dim: u32, gqa_ratio_log2: u8)
    requires
        k.nodes == flash_attn_decode_nodes(head_dim, gqa_ratio_log2),
    ensures
        ranges_ascend(k.nodes),
        function_of(k) is Ok,
{
    reveal_with_fuel(all_fit, 66);
    assert(all_fit(k, 65));
    fitting_kernels_can_be_translated(k);
}

// ── What the kernel does ──
/// What the threads of a head keep of the keys and values seen so far: the largest score, the
/// sum of the weights, and one element of the weighted sum of values.
pub struct Kept {
    pub most: u32,
    pub sum: u32,
    pub acc: u32,
}

/// What is kept after one more key with a score and a value: old weights shrink by the
/// difference to the new largest score.
pub open spec fn with_key(f: Floats, old: Kept, score: u32, v: u32) -> Kept {
    let most = (f.binary)(BinOpKind::Max, old.most, score);
    let shrink = exp_of(f, f.minus(old.most, most));
    let weight = exp_of(f, f.minus(score, most));
    Kept {
        most,
        sum: f.plus(f.times(old.sum, shrink), weight),
        acc: f.plus(f.times(old.acc, shrink), f.times(weight, v)),
    }
}

/// Where a head begins among the queries, and where the keys and values it shares begin at a
/// position.
pub open spec fn query_at(l: Launch) -> int {
    (l.group)(0) * (l.args)(5)
}

pub open spec fn key_at(l: Launch, gqa_ratio_log2: u8) -> int {
    l.turn * (l.args)(7) + ((l.group)(0) >> (gqa_ratio_log2 as u32)) * (l.args)(5)
}

/// The products of query and key, element by element.
pub open spec fn products(l: Launch, head_dim: u32, gqa_ratio_log2: u8) -> Seq<u32> {
    Seq::new(
        head_dim as nat,
        |u: int|
            l.floats.times(
                (l.words)(0, query_at(l) + u),
                (l.words)(1, key_at(l, gqa_ratio_log2) + u),
            ),
    )
}

/// What the local data share holds for a thread.
pub open spec fn kept(l: Launch, t: u32, head_dim: u32) -> Kept {
    Kept {
        most: (l.shared)(head_dim as int),
        sum: (l.shared)(head_dim + 1),
        acc: (l.shared)(t as int),
    }
}

/// Whether a thread is one of a head of the size that the kernel was built for, in a turn whose
/// places are words.
pub open spec fn head_runs(
    k: BlockState,
    l: Launch,
    t: u32,
    head_dim: u32,
    gqa_ratio_log2: u8,
) -> bool {
    &&& k.block_size == head_dim
    &&& t < head_dim
    &&& head_dim < u32::MAX
    &&& (l.args)(5) == head_dim
    &&& query_at(l) + head_dim <= u32::MAX
    &&& l.turn * (l.args)(7) <= u32::MAX
    &&& key_at(l, gqa_ratio_log2) + head_dim <= u32::MAX
}

/// The first values of a thread: its elements of the query and of a key, and their product.
proof fn lemma_head_thread(k: BlockState, l: Launch, t: u32, head_dim: u32, gqa_ratio_log2: u8)
    requires
        k.nodes == flash_attn_decode_nodes(head_dim, gqa_ratio_log2),
        head_runs(k, l, t, head_dim, gqa_ratio_log2),
    ensures
        ({
            let v = |i: int| value(k, l, t, i);
            &&& v(8) == t && v(13) != 0 && v(17) == head_dim && v(18) == head_dim + 1
            &&& v(12) == query_at(l) && v(14) == query_at(l) + t
            &&& v(32) == key_at(l, gqa_ratio_log2)
            &&& v(35) == products(l, head_dim, gqa_ratio_log2)[t as int]
        }),
{
    let d = head_dim;
    let h = (l.group)(0);
    let shared_head = h >> (gqa_ratio_log2 as u32);
    let v = |i: int| value(k, l, t, i);
    assert(0 <= h * d && 0 <= shared_head * d && 0 <= l.turn * (l.args)(7)) by (nonlinear_arith)
        requires
            0 <= l.turn,
            0 <= (l.args)(7),
    ;
    assert(v(0) == 0 && v(1) == 1 && v(5) == d && v(7) == (l.args)(7) && v(8) == t && v(9) == h);
    assert(v(10) == shared_head);
    lemma_product(k, l, t, 11, BVal(10), BVal(5), shared_head as int, d as int);
    lemma_product(k, l, t, 12, BVal(9), BVal(5), h as int, d as int);
    assert(v(13) != 0);
    assert(v(14) == query_at(l) + t);
    assert(v(15) == (l.words)(0, query_at(l) + t));
    assert(v(17) == d && v(18) == d + 1);
    assert(v(27) == l.turn);
    lemma_product(k, l, t, 31, BVal(27), BVal(7), l.turn as int, (l.args)(7) as int);
    assert(v(32) == key_at(l, gqa_ratio_log2));
    assert(v(33) == key_at(l, gqa_ratio_log2) + t);
    assert(v(34) == (l.words)(1, key_at(l, gqa_ratio_log2) + t));
}

/// Attention in one pass: the threads start with a largest score of minus infinity and empty
/// sums; each turn takes in one more key and value, the score being the scaled product of query
/// and key; at the end each thread stores its weighted sum over the sum of the weights.
pub proof fn flash_attn_decode_attends(
    k: BlockState,
    l: Launch,
    t: u32,
    head_dim: u32,
    gqa_ratio_log2: u8,
)
    requires
        k.nodes == flash_attn_decode_nodes(head_dim, gqa_ratio_log2),
        head_runs(k, l, t, head_dim, gqa_ratio_log2),
    ensures
        ({
            let f = l.floats;
            let dot = (f.reduce)(ReduceKind::Add, products(l, head_dim, gqa_ratio_log2));
            let score = f.times(dot, (l.args)(4));
            let old = kept(l, t, head_dim);
            let new = with_key(
                f,
                old,
                score,
                (l.words)(2, key_at(l, gqa_ratio_log2) + t),
            );
            &&& shared_store(k, l, t, 23) == Some((t as int, 0u32))
            &&& shared_store(k, l, t, 24) == Some((head_dim as int, NEG_INFINITY))
            &&& shared_store(k, l, t, 25) == Some((head_dim + 1, 0u32))
            &&& shared_store(k, l, t, 54) == Some((t as int, new.acc))
            &&& shared_store(k, l, t, 55) == Some((head_dim as int, new.most))
            &&& shared_store(k, l, t, 56) == Some((head_dim + 1, new.sum))
            &&& stored(k, l, t, 64) == Some(
                Access {
                    ptr: 3,
                    place: query_at(l) + t,
                    word: f.times(old.acc, f.apply(UnaryOpKind::Rcp, old.sum)),
                },
            )
        }),
{
    let f = l.floats;
    let d = head_dim;
    let xs = products(l, head_dim, gqa_ratio_log2);
    let at = key_at(l, gqa_ratio_log2);
    let old = kept(l, t, head_dim);
    let v = |i: int| value(k, l, t, i);
    assert forall|u: u32| u < k.block_size implies #[trigger] value(k, l, u, 35)
        == xs[u as int] by {
        lemma_head_thread(k, l, u, head_dim, gqa_ratio_log2);
    }
    lemma_group_values(k, l, 36, BVal(35), xs);
    lemma_head_thread(k, l, t, head_dim, gqa_ratio_log2);
    assert(v(2) == 2 && v(3) == 3 && v(4) == (l.args)(4));
    assert(v(20) == 0 && v(21) == NEG_INFINITY);
    assert(v(28) == old.most && v(29) == old.sum && v(30) == old.acc);
    assert(v(36) == (f.reduce)(ReduceKind::Add, xs));
    assert(v(37) == f.times(v(36), (l.args)(4)));
    assert(v(38) == at + t);
    assert(v(39) == (l.words)(2, at + t));
    let new = with_key(f, old, v(37), v(39));
    assert(v(40) == new.most);
    assert(v(41) == f.minus(old.most, v(40)) && v(42) == LOG2_E);
    assert(v(43) == f.times(v(41), LOG2_E));
    assert(v(44) == exp_of(f, v(41)));
    assert(v(45) == f.minus(v(37), v(40)) && v(46) == LOG2_E);
    assert(v(47) == f.times(v(45), LOG2_E));
    assert(v(48) == exp_of(f, v(45)));
    assert(v(49) == f.times(old.sum, v(44)));
    assert(v(50) == new.sum);
    assert(v(51) == f.times(v(48), v(39)));
    assert(v(52) == f.times(old.acc, v(44)));
    assert(v(53) == new.acc);
    assert(v(59) == old.sum && v(60) == old.acc);
    assert(v(61) == f.apply(UnaryOpKind::Rcp, old.sum));
    assert(v(62) == f.times(old.acc, v(61)));
    assert(v(63) == query_at(l) + t);
}

} // verus!
