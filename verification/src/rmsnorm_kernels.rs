//! Kernels that normalize rows, and how they are launched.
use vstd::prelude::*;

use crate::block_dsl::{BNode, BVal, BlockKernel, BlockState};
use crate::block_dsl_to_ssa::{
    all_fit, fitting_kernels_can_be_translated, function_of, ranges_ascend,
};
use crate::lanes::{Access, Floats, Launch, lemma_group_values, lemma_product, stored, value};
use crate::tile_ssa::{ReduceKind, UnaryOpKind};

verus! {

/// Threads per workgroup.
pub const WG_SIZE: u32 = 256;

/// The nodes of the kernel that divides each row by its root mean square.
pub open spec fn rmsnorm_forward_nodes() -> Seq<BNode<Seq<char>>> {
    seq![
        BNode::ArgPtr("input"@),
        BNode::ArgPtr("weight"@),
        BNode::ArgPtr("output"@),
        BNode::ArgU32("cols"@),
        BNode::ArgF32("eps"@),
        BNode::ThreadId,
        BNode::ProgramId(0),
        BNode::MulU32(BVal(6), BVal(3)),
        BNode::ConstF32(0),
        BNode::ConstU32(0),
        BNode::ForAccBegin { start: BVal(9), end: BVal(3), step: WG_SIZE, init_acc: BVal(8) },
        BNode::ForAccPhi { begin_node: 10 },
        BNode::AddU32(BVal(10), BVal(5)),
        BNode::LtU32(BVal(12), BVal(3)),
        BNode::AddU32(BVal(7), BVal(12)),
        BNode::Load { ptr: BVal(0), offsets: BVal(14), mask: BVal(13) },
        BNode::MulF32(BVal(15), BVal(15)),
        BNode::Select { mask: BVal(13), true_val: BVal(16), false_val: BVal(8) },
        BNode::AddF32(BVal(11), BVal(17)),
        BNode::ForAccEnd { begin_node: 10, new_acc: BVal(18) },
        BNode::ForAccResult { begin_node: 10 },
        BNode::WgReduceAddF32(BVal(11)),
        BNode::CvtF32U32(BVal(3)),
        BNode::DivF32(BVal(21), BVal(22)),
        BNode::AddF32(BVal(23), BVal(4)),
        BNode::RsqrtF32(BVal(24)),
        BNode::ForBegin { start: BVal(9), end: BVal(3), step: WG_SIZE },
        BNode::AddU32(BVal(26), BVal(5)),
        BNode::LtU32(BVal(27), BVal(3)),
        BNode::AddU32(BVal(7), BVal(27)),
        BNode::Load { ptr: BVal(0), offsets: BVal(29), mask: BVal(28) },
        BNode::MulF32(BVal(30), BVal(25)),
        BNode::Load { ptr: BVal(1), offsets: BVal(27), mask: BVal(28) },
        BNode::MulF32(BVal(31), BVal(32)),
        BNode::Store { ptr: BVal(2), offsets: BVal(29), val: BVal(33), mask: BVal(28) },
        BNode::ForEnd { begin_node: 26 },
    ]
}

/// Builds the kernel that divides each row by its root mean square.
pub fn build_rmsnorm_forward() -> (r: BlockKernel)
    ensures
        r@ == (BlockState {
            nodes: rmsnorm_forward_nodes(),
            stores: seq![BVal(34)],
            ..BlockState::empty("rmsnorm_fwd"@, WG_SIZE)
        }),
        r@.wf(),
{
    let mut kb = BlockKernel::new("rmsnorm_fwd", WG_SIZE);
    let input_ptr = kb.arg_ptr("input");
    let weight_ptr = kb.arg_ptr("weight");
    let output_ptr = kb.arg_ptr("output");
    let cols = kb.arg_u32("cols");
    let eps = kb.arg_f32("eps");
    let tid = kb.thread_id();
    let pid = kb.program_id(0);
    let row_base = pid.mul(&mut kb, cols);
    let zero_f = kb.const_f32(0);
    let zero = kb.const_u32(0);
    let (iter1, sum_sq) = kb.for_range_acc(zero, cols, WG_SIZE, zero_f);
    let col = iter1.add(&mut kb, tid);
    let in_bounds = col.lt(&mut kb, cols);
    let offset = row_base.add(&mut kb, col);
    let x = kb.load(input_ptr, offset, in_bounds);
    let x_sq = x.mul(&mut kb, x);
    let x_sq_masked = in_bounds.select(&mut kb, x_sq, zero_f);
    let new_acc = sum_sq.add(&mut kb, x_sq_masked);
    let _sum = kb.end_for_acc(iter1, new_acc);
    let sum_sq = kb.wg_reduce_sum(sum_sq);
    let cols_f = cols.to_f32(&mut kb);
    let mean_sq = sum_sq.div(&mut kb, cols_f);
    let mean_sq_eps = mean_sq.add(&mut kb, eps);
    let rstd = mean_sq_eps.rsqrt(&mut kb);
    let iter2 = kb.for_range(zero, cols, WG_SIZE);
    let col = iter2.add(&mut kb, tid);
    let in_bounds = col.lt(&mut kb, cols);
    let offset = row_base.add(&mut kb, col);
    let x = kb.load(input_ptr, offset, in_bounds);
    let x_norm = x.mul(&mut kb, rstd);
    let w = kb.load(weight_ptr, col, in_bounds);
    let y = x_norm.mul(&mut kb, w);
    kb.store(output_ptr, offset, y, in_bounds);
    kb.end_for(iter2);
    kb
}

/// The nodes of the kernel for the gradient of that.
pub open spec fn rmsnorm_backward_nodes() -> Seq<BNode<Seq<char>>> {
    seq![
        BNode::ArgPtr("dy"@),
        BNode::ArgPtr("x"@),
        BNode::ArgPtr("weight"@),
        BNode::ArgPtr("dx"@),
        BNode::ArgU32("cols"@),
        BNode::ArgF32("eps"@),
        BNode::ThreadId,
        BNode::ProgramId(0),
        BNode::MulU32(BVal(7), BVal(4)),
        BNode::AddU32(BVal(8), BVal(6)),
        BNode::LtU32(BVal(6), BVal(4)),
        BNode::Load { ptr: BVal(0), offsets: BVal(9), mask: BVal(10) },
        BNode::Load { ptr: BVal(1), offsets: BVal(9), mask: BVal(10) },
        BNode::Load { ptr: BVal(2), offsets: BVal(6), mask: BVal(10) },
        BNode::MulF32(BVal(12), BVal(12)),
        BNode::ConstF32(0),
        BNode::Select { mask: BVal(10), true_val: BVal(14), false_val: BVal(15) },
        BNode::WgReduceAddF32(BVal(16)),
        BNode::CvtF32U32(BVal(4)),
        BNode::DivF32(BVal(17), BVal(18)),
        BNode::AddF32(BVal(19), BVal(5)),
        BNode::RsqrtF32(BVal(20)),
        BNode::MulF32(BVal(11), BVal(13)),
        BNode::MulF32(BVal(12), BVal(22)),
        BNode::Select { mask: BVal(10), true_val: BVal(23), false_val: BVal(15) },
        BNode::WgReduceAddF32(BVal(24)),
        BNode::DivF32(BVal(25), BVal(18)),
        BNode::MulF32(BVal(21), BVal(21)),
        BNode::MulF32(BVal(12), BVal(27)),
        BNode::MulF32(BVal(28), BVal(26)),
        BNode::SubF32(BVal(22), BVal(29)),
        BNode::MulF32(BVal(30), BVal(21)),
        BNode::Store { ptr: BVal(3), offsets: BVal(9), val: BVal(31), mask: BVal(10) },
    ]
}

/// Builds the kernel for the gradient of that.
pub fn build_rmsnorm_backward() -> (r: BlockKernel)
    ensures
        r@ == (BlockState {
            nodes: rmsnorm_backward_nodes(),
            stores: seq![BVal(32)],
            ..BlockState::empty("rmsnorm_bwd"@, WG_SIZE)
        }),
        r@.wf(),
{
    let mut kb = BlockKernel::new("rmsnorm_bwd", WG_SIZE);
    let dy_ptr = kb.arg_ptr("dy");
    let x_ptr = kb.arg_ptr("x");
    let weight_ptr = kb.arg_ptr("weight");
    let dx_ptr = kb.arg_ptr("dx");
    let cols = kb.arg_u32("cols");
    let eps = kb.arg_f32("eps");
    let tid = kb.thread_id();
    let pid = kb.program_id(0);
    let row_base = pid.mul(&mut kb, cols);
    let offset = row_base.add(&mut kb, tid);
    let mask = tid.lt(&mut kb, cols);
    let dy = kb.load(dy_ptr, offset, mask);
    let x = kb.load(x_ptr, offset, mask);
    let w = kb.load(weight_ptr, tid, mask);
    let x_sq = x.mul(&mut kb, x);
    let zero_f = kb.const_f32(0);
    let x_sq_masked = mask.select(&mut kb, x_sq, zero_f);
    let sum_sq = kb.wg_reduce_sum(x_sq_masked);
    let cols_f = cols.to_f32(&mut kb);
    let mean_sq = sum_sq.div(&mut kb, cols_f);
    let mean_sq_eps = mean_sq.add(&mut kb, eps);
    let rstd = mean_sq_eps.rsqrt(&mut kb);
    let dx_hat = dy.mul(&mut kb, w);
    let x_dx_hat = x.mul(&mut kb, dx_hat);
    let x_dx_hat_masked = mask.select(&mut kb, x_dx_hat, zero_f);
    let dot_sum = kb.wg_reduce_sum(x_dx_hat_masked);
    let dot_mean = dot_sum.div(&mut kb, cols_f);
    let rstd_sq = rstd.mul(&mut kb, rstd);
    let x_rstd_sq = x.mul(&mut kb, rstd_sq);
    let correction = x_rstd_sq.mul(&mut kb, dot_mean);
    let dx_unnorm = dx_hat.sub(&mut kb, correction);
    let dx = dx_unnorm.mul(&mut kb, rstd);
    kb.store(dx_ptr, offset, dx, mask);
    kb
}

/// The nodes of the kernel that adds the normalized row to the row.
pub open spec fn rmsnorm_residual_add_nodes() -> Seq<BNode<Seq<char>>> {
    seq![
        BNode::ArgPtr("input"@),
        BNode::ArgPtr("weight"@),
        BNode::ArgPtr("output"@),
        BNode::ArgPtr("rms"@),
        BNode::ArgU32("cols"@),
        BNode::ArgF32("eps"@),
        BNode::ThreadId,
        BNode::ProgramId(0),
        BNode::MulU32(BVal(7), BVal(4)),
        BNode::ConstF32(0),
        BNode::ConstU32(0),
        BNode::ForAccBegin { start: BVal(10), end: BVal(4), step: WG_SIZE, init_acc: BVal(9) },
        BNode::ForAccPhi { begin_node: 11 },
        BNode::AddU32(BVal(11), BVal(6)),
        BNode::LtU32(BVal(13), BVal(4)),
        BNode::AddU32(BVal(8), BVal(13)),
        BNode::Load { ptr: BVal(0), offsets: BVal(15), mask: BVal(14) },
        BNode::MulF32(BVal(16), BVal(16)),
        BNode::Select { mask: BVal(14), true_val: BVal(17), false_val: BVal(9) },
        BNode::AddF32(BVal(12), BVal(18)),
        BNode::ForAccEnd { begin_node: 11, new_acc: BVal(19) },
        BNode::ForAccResult { begin_node: 11 },
        BNode::WgReduceAddF32(BVal(12)),
        BNode::CvtF32U32(BVal(4)),
        BNode::DivF32(BVal(22), BVal(23)),
        BNode::AddF32(BVal(24), BVal(5)),
        BNode::RsqrtF32(BVal(25)),
        BNode::ConstU32(1),
        BNode::LtU32(BVal(6), BVal(27)),
        BNode::Store { ptr: BVal(3), offsets: BVal(7), val: BVal(26), mask: BVal(28) },
        BNode::ForBegin { start: BVal(10), end: BVal(4), step: WG_SIZE },
        BNode::AddU32(BVal(30), BVal(6)),
        BNode::LtU32(BVal(31), BVal(4)),
        BNode::AddU32(BVal(8), BVal(31)),
        BNode::Load { ptr: BVal(0), offsets: BVal(33), mask: BVal(32) },
        BNode::Load { ptr: BVal(1), offsets: BVal(31), mask: BVal(32) },
        BNode::MulF32(BVal(34), BVal(26)),
        BNode::MulF32(BVal(36), BVal(35)),
        BNode::AddF32(BVal(34), BVal(37)),
        BNode::Store { ptr: BVal(2), offsets: BVal(33), val: BVal(38), mask: BVal(32) },
        BNode::ForEnd { begin_node: 30 },
    ]
}

/// Builds the kernel that adds the normalized row to the row.
pub fn build_rmsnorm_residual_add() -> (r: BlockKernel)
    ensures
        r@ == (BlockState {
            nodes: rmsnorm_residual_add_nodes(),
            stores: seq![BVal(29), BVal(39)],
            ..BlockState::empty("rmsnorm_resadd"@, WG_SIZE)
        }),
        r@.wf(),
{
    let mut kb = BlockKernel::new("rmsnorm_resadd", WG_SIZE);
    let input_ptr = kb.arg_ptr("input");
    let weight_ptr = kb.arg_ptr("weight");
    let output_ptr = kb.arg_ptr("output");
    let rms_ptr = kb.arg_ptr("rms");
    let cols = kb.arg_u32("cols");
    let eps = kb.arg_f32("eps");
    let tid = kb.thread_id();
    let pid = kb.program_id(0);
    let row_base = pid.mul(&mut kb, cols);
    let zero_f = kb.const_f32(0);
    let zero = kb.const_u32(0);
    let (iter1, sum_sq) = kb.for_range_acc(zero, cols, WG_SIZE, zero_f);
    let col = iter1.add(&mut kb, tid);
    let in_bounds = col.lt(&mut kb, cols);
    let offset = row_base.add(&mut kb, col);
    let x = kb.load(input_ptr, offset, in_bounds);
    let x_sq = x.mul(&mut kb, x);
    let x_sq_masked = in_bounds.select(&mut kb, x_sq, zero_f);
    let new_acc = sum_sq.add(&mut kb, x_sq_masked);
    let _sum = kb.end_for_acc(iter1, new_acc);
    let sum_sq = kb.wg_reduce_sum(sum_sq);
    let cols_f = cols.to_f32(&mut kb);
    let mean_sq = sum_sq.div(&mut kb, cols_f);
    let mean_sq_eps = mean_sq.add(&mut kb, eps);
    let rstd = mean_sq_eps.rsqrt(&mut kb);
    let one_u = kb.const_u32(1);
    let lane_mask = tid.lt(&mut kb, one_u);
    kb.store(rms_ptr, pid, rstd, lane_mask);
    let iter2 = kb.for_range(zero, cols, WG_SIZE);
    let col = iter2.add(&mut kb, tid);
    let in_bounds = col.lt(&mut kb, cols);
    let offset = row_base.add(&mut kb, col);
    let x = kb.load(input_ptr, offset, in_bounds);
    let w = kb.load(weight_ptr, col, in_bounds);
    let normed = x.mul(&mut kb, rstd).mul(&mut kb, w);
    let y = x.add(&mut kb, normed);
    kb.store(output_ptr, offset, y, in_bounds);
    kb.end_for(iter2);
    kb
}

/// The grid for one workgroup per row.
pub fn rmsnorm_grid(rows: u32) -> (r: (u32, u32))
    requires
        rows * WG_SIZE <= u32::MAX,
    ensures
        r.0 == rows * WG_SIZE,
        r.1 == 1,
{
    (rows * WG_SIZE, 1)
}

/// Threads per workgroup.
pub fn rmsnorm_wg_size() -> (r: u32)
    ensures
        r == WG_SIZE,
{
    WG_SIZE
}

// ── Translation ──
/// Each kernel that normalizes rows translates to a function.
pub proof fn rmsnorm_kernels_translate(k: BlockState)
    requires
        k.nodes == rmsnorm_forward_nodes()
            || k.nodes == rmsnorm_backward_nodes()
            || k.nodes == rmsnorm_residual_add_nodes(),
    ensures
        ranges_ascend(k.nodes),
        function_of(k) is Ok,
{
    if k.nodes == rmsnorm_forward_nodes() {
        lemma_rmsnorm_forward_fit(k);
    } else if k.nodes == rmsnorm_backward_nodes() {
        lemma_rmsnorm_backward_fit(k);
    } else if k.nodes == rmsnorm_residual_add_nodes() {
        lemma_rmsnorm_residual_add_fit(k);
    }
    fitting_kernels_can_be_translated(k);
}

#[verifier::rlimit(60)]
#[verifier::spinoff_prover]
proof fn lemma_rmsnorm_forward_fit(k: BlockState)
    requires
        k.nodes == rmsnorm_forward_nodes(),
    ensures
        all_fit(k, k.nodes.len()),
{
    reveal_with_fuel(all_fit, 37);
    assert(all_fit(k, 36));
}

#[verifier::rlimit(60)]
#[verifier::spinoff_prover]
proof fn lemma_rmsnorm_backward_fit(k: BlockState)
    requires
        k.nodes == rmsnorm_backward_nodes(),
    ensures
        all_fit(k, k.nodes.len()),
{
    reveal_with_fuel(all_fit, 34);
    assert(all_fit(k, 33));
}

#[verifier::rlimit(60)]
#[verifier::spinoff_prover]
proof fn lemma_rmsnorm_residual_add_fit(k: BlockState)
    requires
        k.nodes == rmsnorm_residual_add_nodes(),
    ensures
        all_fit(k, k.nodes.len()),
{
    reveal_with_fuel(all_fit, 42);
    assert(all_fit(k, 41));
}

// ── What the kernels do ──
/// The inverse root mean square of a row, from the sums of squares of its threads.
pub open spec fn inverse_rms(f: Floats, sums: Seq<u32>, cols: u32, eps: u32) -> u32 {
    let mean = f.over((f.reduce)(ReduceKind::Add, sums), (f.of_word)(cols));
    f.apply(UnaryOpKind::Rsqrt, f.plus(mean, eps))
}

/// The sums that the threads of a row carry out of the loop that begins at a node.
pub open spec fn carried_sums(l: Launch, begin: int) -> Seq<u32> {
    Seq::new(WG_SIZE as nat, |u: int| (l.carried)(begin, u as u32))
}

/// Whether a thread is one of a workgroup of 256 in a turn whose places are words.
pub open spec fn row_runs(k: BlockState, l: Launch, t: u32, cols: u32) -> bool {
    &&& k.block_x == WG_SIZE
    &&& k.block_size == WG_SIZE
    &&& t < WG_SIZE
    &&& l.turn + t <= u32::MAX
    &&& (l.group)(0) * cols + l.turn + t <= u32::MAX
}

/// Normalizing a row: a turn of the first loop adds the square of a thread's element to what
/// the thread carries, and a turn of the second stores the element over the root mean square,
/// times its weight.
pub proof fn rmsnorm_forward_normalizes(k: BlockState, l: Launch, t: u32)
    requires
        k.nodes == rmsnorm_forward_nodes(),
        row_runs(k, l, t, (l.args)(3)),
    ensures
        ({
            let (row, cols, f) = ((l.group)(0), (l.args)(3), l.floats);
            let col = l.turn + t;
            let x = (l.words)(0, row * cols + col);
            let scale = inverse_rms(f, carried_sums(l, 10), cols, (l.args)(4));
            &&& value(k, l, t, 18) == f.plus(
                (l.carried)(10, t),
                if col < cols {
                    f.times(x, x)
                } else {
                    0
                },
            )
            &&& stored(k, l, t, 34) == if col < cols {
                Some(
                    Access {
                        ptr: 2,
                        place: row * cols + col,
                        word: f.times(f.times(x, scale), (l.words)(1, col)),
                    },
                )
            } else {
                None
            }
        }),
{
    let (row, cols, f) = ((l.group)(0), (l.args)(3), l.floats);
    let col = l.turn + t;
    let x = (l.words)(0, row * cols + col);
    let sums = carried_sums(l, 10);
    let v = |i: int| value(k, l, t, i);
    assert(v(0) == 0 && v(1) == 1 && v(2) == 2 && v(3) == cols && v(4) == (l.args)(4));
    assert(v(5) == t && v(6) == row && v(8) == 0);
    lemma_product(k, l, t, 7, BVal(6), BVal(3), row as int, cols as int);
    assert(v(10) == l.turn && v(11) == (l.carried)(10, t));
    assert(v(12) == col);
    assert(v(13) != 0 <==> col < cols);
    assert(v(14) == row * cols + col);
    if col < cols {
        assert(v(15) == x);
        assert(v(16) == f.times(x, x));
    }
    assert(v(17) == if col < cols {
        f.times(x, x)
    } else {
        0
    });
    assert forall|u: u32| u < WG_SIZE implies #[trigger] value(k, l, u, 11) == sums[u as int] by {}
    lemma_group_values(k, l, 21, BVal(11), sums);
    assert(v(21) == (f.reduce)(ReduceKind::Add, sums));
    assert(v(22) == (f.of_word)(cols));
    assert(v(23) == f.over(v(21), v(22)));
    assert(v(24) == f.plus(v(23), (l.args)(4)));
    assert(v(25) == inverse_rms(f, sums, cols, (l.args)(4)));
    assert(v(26) == l.turn);
    assert(v(27) == col);
    assert(v(28) != 0 <==> col < cols);
    assert(v(29) == row * cols + col);
    if col < cols {
        assert(v(30) == x && v(32) == (l.words)(1, col));
        assert(v(31) == f.times(x, v(25)));
        assert(v(33) == f.times(v(31), v(32)));
    }
}

/// Adding the normalized row: the same sums, and a turn of the second loop stores the element
/// plus its normalized value. The first thread stores the inverse root mean square.
pub proof fn rmsnorm_residual_add_adds(k: BlockState, l: Launch, t: u32)
    requires
        k.nodes == rmsnorm_residual_add_nodes(),
        row_runs(k, l, t, (l.args)(4)),
    ensures
        ({
            let (row, cols, f) = ((l.group)(0), (l.args)(4), l.floats);
            let col = l.turn + t;
            let x = (l.words)(0, row * cols + col);
            let scale = inverse_rms(f, carried_sums(l, 11), cols, (l.args)(5));
            &&& value(k, l, t, 19) == f.plus(
                (l.carried)(11, t),
                if col < cols {
                    f.times(x, x)
                } else {
                    0
                },
            )
            &&& stored(k, l, t, 29) == if t == 0 {
                Some(Access { ptr: 3, place: row as int, word: scale })
            } else {
                None
            }
            &&& stored(k, l, t, 39) == if col < cols {
                Some(
                    Access {
                        ptr: 2,
                        place: row * cols + col,
                        word: f.plus(x, f.times(f.times(x, scale), (l.words)(1, col))),
                    },
                )
            } else {
                None
            }
        }),
{
    let (row, cols, f) = ((l.group)(0), (l.args)(4), l.floats);
    let col = l.turn + t;
    let x = (l.words)(0, row * cols + col);
    let sums = carried_sums(l, 11);
    let v = |i: int| value(k, l, t, i);
    assert(v(0) == 0 && v(1) == 1 && v(2) == 2 && v(3) == 3);
    assert(v(4) == cols && v(5) == (l.args)(5) && v(6) == t && v(7) == row && v(9) == 0);
    lemma_product(k, l, t, 8, BVal(7), BVal(4), row as int, cols as int);
    assert(v(11) == l.turn && v(12) == (l.carried)(11, t));
    assert(v(13) == col);
    assert(v(14) != 0 <==> col < cols);
    assert(v(15) == row * cols + col);
    if col < cols {
        assert(v(16) == x);
        assert(v(17) == f.times(x, x));
    }
    assert(v(18) == if col < cols {
        f.times(x, x)
    } else {
        0
    });
    assert forall|u: u32| u < WG_SIZE implies #[trigger] value(k, l, u, 12) == sums[u as int] by {}
    lemma_group_values(k, l, 22, BVal(12), sums);
    assert(v(22) == (f.reduce)(ReduceKind::Add, sums));
    assert(v(23) == (f.of_word)(cols));
    assert(v(24) == f.over(v(22), v(23)));
    assert(v(25) == f.plus(v(24), (l.args)(5)));
    assert(v(26) == inverse_rms(f, sums, cols, (l.args)(5)));
    assert(v(27) == 1);
    assert(v(28) != 0 <==> t == 0);
    assert(v(30) == l.turn);
    assert(v(31) == col);
    assert(v(32) != 0 <==> col < cols);
    assert(v(33) == row * cols + col);
    if col < cols {
        assert(v(34) == x && v(35) == (l.words)(1, col));
        assert(v(36) == f.times(x, v(26)));
        assert(v(37) == f.times(v(36), v(35)));
        assert(v(38) == f.plus(x, v(37)));
    }
}

/// The squares of a row's elements, zero where there are none.
pub open spec fn squares(l: Launch) -> Seq<u32> {
    let (row, cols) = ((l.group)(0), (l.args)(4));
    Seq::new(
        WG_SIZE as nat,
        |u: int|
            if u < cols {
                l.floats.times((l.words)(1, row * cols + u), (l.words)(1, row * cols + u))
            } else {
                0
            },
    )
}

/// The gradient of an element before normalization: the upstream gradient times the weight.
pub open spec fn weighted(l: Launch, u: int) -> u32 {
    l.floats.times((l.words)(0, (l.group)(0) * (l.args)(4) + u), (l.words)(2, u))
}

/// The products of a row's elements with these gradients, zero where there are none.
pub open spec fn correlations(l: Launch) -> Seq<u32> {
    let (row, cols) = ((l.group)(0), (l.args)(4));
    Seq::new(
        WG_SIZE as nat,
        |u: int|
            if u < cols {
                l.floats.times((l.words)(1, row * cols + u), weighted(l, u))
            } else {
                0
            },
    )
}

/// The gradient of a normalized row: with `g` the upstream gradient times the weight and `s`
/// the inverse root mean square, `dx = (g - x * s^2 * mean(x * g)) * s`.
pub proof fn rmsnorm_backward_gives_the_gradient(k: BlockState, l: Launch, t: u32)
    requires
        k.nodes == rmsnorm_backward_nodes(),
        k.block_x == WG_SIZE,
        k.block_size == WG_SIZE,
        t < WG_SIZE,
        (l.group)(0) * (l.args)(4) + WG_SIZE <= u32::MAX,
    ensures
        ({
            let (row, cols, f) = ((l.group)(0), (l.args)(4), l.floats);
            let x = (l.words)(1, row * cols + t);
            let s = inverse_rms(f, squares(l), cols, (l.args)(5));
            let mean = f.over((f.reduce)(ReduceKind::Add, correlations(l)), (f.of_word)(cols));
            stored(k, l, t, 32) == if t < cols {
                Some(
                    Access {
                        ptr: 3,
                        place: row * cols + t,
                        word: f.times(
                            f.minus(
                                weighted(l, t as int),
                                f.times(f.times(x, f.times(s, s)), mean),
                            ),
                            s,
                        ),
                    },
                )
            } else {
                None
            }
        }),
{
    let (row, cols, f) = ((l.group)(0), (l.args)(4), l.floats);
    assert forall|u: u32| u < WG_SIZE implies {
        &&& #[trigger] value(k, l, u, 16) == squares(l)[u as int]
        &&& value(k, l, u, 24) == correlations(l)[u as int]
    } by {
        lemma_backward_thread(k, l, u);
    }
    assert forall|u: u32| u < WG_SIZE implies #[trigger] value(k, l, u, 24) == correlations(
        l,
    )[u as int] by {
        lemma_backward_thread(k, l, u);
    }
    lemma_group_values(k, l, 17, BVal(16), squares(l));
    lemma_group_values(k, l, 25, BVal(24), correlations(l));
    lemma_backward_thread(k, l, t);
    let v = |i: int| value(k, l, t, i);
    let s = inverse_rms(f, squares(l), cols, (l.args)(5));
    assert(v(3) == 3 && v(5) == (l.args)(5));
    assert(v(17) == (f.reduce)(ReduceKind::Add, squares(l)));
    assert(v(18) == (f.of_word)(cols));
    assert(v(19) == f.over(v(17), v(18)));
    assert(v(20) == f.plus(v(19), (l.args)(5)));
    assert(v(21) == s);
    assert(v(25) == (f.reduce)(ReduceKind::Add, correlations(l)));
    assert(v(26) == f.over(v(25), v(18)));
    assert(v(27) == f.times(s, s));
    if t < cols {
        assert(v(28) == f.times(v(12), v(27)));
        assert(v(29) == f.times(v(28), v(26)));
        assert(v(30) == f.minus(v(22), v(29)));
        assert(v(31) == f.times(v(30), s));
    }
}

/// What a thread of that kernel computes before the workgroup sums up.
proof fn lemma_backward_thread(k: BlockState, l: Launch, u: u32)
    requires
        k.nodes == rmsnorm_backward_nodes(),
        k.block_x == WG_SIZE,
        u < WG_SIZE,
        (l.group)(0) * (l.args)(4) + WG_SIZE <= u32::MAX,
    ensures
        ({
            let (row, cols) = ((l.group)(0), (l.args)(4));
            let v = |i: int| value(k, l, u, i);
            &&& v(4) == cols
            &&& v(9) == row * cols + u
            &&& v(10) != 0 <==> u < cols
            &&& u < cols ==> v(12) == (l.words)(1, row * cols + u) && v(22) == weighted(
                l,
                u as int,
            )
            &&& v(16) == squares(l)[u as int]
            &&& v(24) == correlations(l)[u as int]
        }),
{
    let (row, cols, f) = ((l.group)(0), (l.args)(4), l.floats);
    let v = |i: int| value(k, l, u, i);
    assert(v(0) == 0 && v(1) == 1 && v(2) == 2 && v(4) == cols && v(6) == u && v(7) == row);
    lemma_product(k, l, u, 8, BVal(7), BVal(4), row as int, cols as int);
    assert(v(9) == row * cols + u);
    assert(v(10) != 0 <==> u < cols);
    assert(v(15) == 0);
    if u < cols {
        assert(v(11) == (l.words)(0, row * cols + u));
        assert(v(12) == (l.words)(1, row * cols + u));
        assert(v(13) == (l.words)(2, u as int));
        assert(v(14) == f.times(v(12), v(12)));
        assert(v(22) == f.times(v(11), v(13)));
        assert(v(23) == f.times(v(12), v(22)));
    }
}

} // verus!
