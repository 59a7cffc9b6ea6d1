//! Kernels that find the largest value of a row, and how they are launched.
use vstd::prelude::*;

use crate::block_dsl::{BNode, BType, BVal, BlockKernel, BlockState, F255, F32_MAX, NEG_INFINITY};
use crate::block_dsl_to_ssa::{
    all_fit, fitting_kernels_can_be_translated, function_of, lemma_more_fit, node_fits,
    ranges_ascend,
};
use crate::lanes::{Access, Launch, lemma_group_values, lemma_product, stored, value};
use crate::tile_ssa::ReduceKind;

verus! {

/// Threads per workgroup.
pub const WG_SIZE: u32 = 256;

/// The nodes of the kernel that finds the largest of up to 256 values per row: all threads
/// that hold the maximum offer their number, and the smallest one wins.
pub open spec fn argmax_nodes() -> Seq<BNode<Seq<char>>> {
    seq![
        BNode::ArgPtr("input"@),
        BNode::ArgPtr("output"@),
        BNode::ArgU32("cols"@),
        BNode::ThreadId,
        BNode::ProgramId(0),
        BNode::MulU32(BVal(4), BVal(2)),
        BNode::AddU32(BVal(5), BVal(3)),
        BNode::LtU32(BVal(3), BVal(2)),
        BNode::Load { ptr: BVal(0), offsets: BVal(6), mask: BVal(7) },
        BNode::ConstF32(NEG_INFINITY),
        BNode::Select { mask: BVal(7), true_val: BVal(8), false_val: BVal(9) },
        BNode::WgReduceMaxF32(BVal(10)),
        BNode::CmpLtF32(BVal(10), BVal(11)),
        BNode::CmpGtF32(BVal(10), BVal(11)),
        BNode::ConstF32(F255),
        BNode::ThreadId,
        BNode::CvtF32U32(BVal(15)),
        BNode::Select { mask: BVal(12), true_val: BVal(14), false_val: BVal(16) },
        BNode::Select { mask: BVal(13), true_val: BVal(14), false_val: BVal(17) },
        BNode::WgReduceMinF32(BVal(18)),
        BNode::ConstU32(1),
        BNode::ThreadId,
        BNode::LtU32(BVal(21), BVal(20)),
        BNode::Store { ptr: BVal(1), offsets: BVal(4), val: BVal(19), mask: BVal(22) },
    ]
}

/// Builds the kernel that finds the largest of up to 256 values per row: all threads
/// that hold the maximum offer their number, and the smallest one wins.
pub fn build_argmax() -> (r: BlockKernel)
    ensures
        r@ == (BlockState {
            nodes: argmax_nodes(),
            stores: seq![BVal(23)],
            ..BlockState::empty("argmax"@, WG_SIZE)
        }),
        r@.wf(),
{
    let mut kb = BlockKernel::new("argmax", WG_SIZE);
    let input_ptr = kb.arg_ptr("input");
    let output_ptr = kb.arg_ptr("output");
    let cols = kb.arg_u32("cols");
    let tid = kb.thread_id();
    let row_idx = kb.program_id(0);
    let row_base = row_idx.mul(&mut kb, cols);
    let offset = row_base.add(&mut kb, tid);
    let mask = tid.lt(&mut kb, cols);
    let x = kb.load(input_ptr, offset, mask);
    let neg_inf = kb.const_f32(NEG_INFINITY);
    let val = mask.select(&mut kb, x, neg_inf);
    let max_val = kb.wg_reduce_max(val);
    let is_less = val.lt_f32(&mut kb, max_val);
    let is_greater = val.gt_f32(&mut kb, max_val);
    let invalid = kb.const_f32(F255);
    let tid_f = kb.thread_id().to_f32(&mut kb);
    let after_lt = is_less.select(&mut kb, invalid, tid_f);
    let candidate = is_greater.select(&mut kb, invalid, after_lt);
    let argmax_idx = kb.wg_reduce_min(candidate);
    let one = kb.const_u32(1);
    let is_zero = kb.thread_id().lt(&mut kb, one);
    kb.store(output_ptr, row_idx, argmax_idx, is_zero);
    kb
}

/// The nodes in front of the scan of the kernel for long rows.
pub open spec fn argmax_large_head() -> Seq<BNode<Seq<char>>> {
    seq![
        BNode::ArgPtr("input"@),
        BNode::ArgPtr("output"@),
        BNode::ArgU32("cols"@),
        BNode::ThreadId,
        BNode::ProgramId(0),
        BNode::MulU32(BVal(4), BVal(2)),
        BNode::ConstF32(NEG_INFINITY),
        BNode::ConstU32(0),
    ]
}

/// The largest value before chunk `i`.
pub open spec fn best_before(i: nat) -> BVal {
    if i == 0 {
        BVal(6)
    } else {
        BVal((10 * i + 4) as usize)
    }
}

/// Its place before chunk `i`.
pub open spec fn place_before(i: nat) -> BVal {
    if i == 0 {
        BVal(7)
    } else {
        BVal((10 * i + 5) as usize)
    }
}

/// The nodes of chunk `i` of the scan: load a value, and keep it and its place if it is
/// larger than those before.
pub open spec fn chunk_nodes(i: nat) -> Seq<BNode<Seq<char>>> {
    let at = |j: int| BVal((8 + 10 * i + j) as usize);
    let start = BVal((7 + 10 * i) as usize);
    seq![
        BNode::AddU32(start, BVal(3)),
        BNode::AddU32(BVal(5), at(0)),
        BNode::LtU32(at(0), BVal(2)),
        BNode::Load { ptr: BVal(0), offsets: at(1), mask: at(2) },
        BNode::Select { mask: at(2), true_val: at(3), false_val: BVal(6) },
        BNode::CmpGtF32(at(4), best_before(i)),
        BNode::Select { mask: at(5), true_val: at(4), false_val: best_before(i) },
        BNode::Select { mask: at(5), true_val: at(0), false_val: place_before(i) },
        BNode::ConstU32(WG_SIZE),
        BNode::AddU32(start, at(8)),
    ]
}

/// The nodes of the first `n` chunks.
pub open spec fn scan_nodes(n: nat) -> Seq<BNode<Seq<char>>>
    decreases n,
{
    if n == 0 {
        Seq::empty()
    } else {
        scan_nodes((n - 1) as nat) + chunk_nodes((n - 1) as nat)
    }
}

/// The nodes behind the scan: the largest value of the workgroup, and the smallest place
/// among those that hold it.
pub open spec fn argmax_large_tail() -> Seq<BNode<Seq<char>>> {
    seq![
        BNode::WgReduceMaxF32(BVal(324)),
        BNode::CmpEqF32(BVal(324), BVal(328)),
        BNode::ConstF32(F32_MAX),
        BNode::CvtF32U32(BVal(325)),
        BNode::Select { mask: BVal(329), true_val: BVal(331), false_val: BVal(330) },
        BNode::WgReduceMinF32(BVal(332)),
        BNode::ConstU32(1),
        BNode::ThreadId,
        BNode::LtU32(BVal(335), BVal(334)),
        BNode::Store { ptr: BVal(1), offsets: BVal(4), val: BVal(333), mask: BVal(336) },
    ]
}

/// Each chunk of the scan has ten nodes.
proof fn lemma_scan_len(n: nat)
    ensures
        scan_nodes(n).len() == 10 * n,
    decreases n,
{
    if n > 0 {
        lemma_scan_len((n - 1) as nat);
    }
}

/// Appends one chunk of the scan.
fn scan_chunk(kb: &mut BlockKernel, i: u32, best_val: BVal, best_idx: BVal, start: BVal) -> (r: (
    BVal,
    BVal,
    BVal,
))
    requires
        i < 32,
        old(kb)@.nodes == argmax_large_head() + scan_nodes(i as nat),
        best_val == best_before(i as nat),
        best_idx == place_before(i as nat),
        start.0 == 7 + 10 * i,
        old(kb)@.typed(start, BType::U32),
    ensures
        final(kb)@ == (BlockState {
            nodes: argmax_large_head() + scan_nodes((i + 1) as nat),
            ..old(kb)@
        }),
        r.0 == best_before((i + 1) as nat),
        r.1 == place_before((i + 1) as nat),
        r.2.0 == 7 + 10 * (i + 1),
        final(kb)@.typed(r.2, BType::U32),
        final(kb)@.typed(r.0, BType::F32),
{
    proof {
        lemma_scan_len(i as nat);
        lemma_scan_len((i + 1) as nat);
        assert(kb@.nodes[0] == argmax_large_head()[0]);
        assert(kb@.nodes[5] == argmax_large_head()[5]);
    }
    let ghost before = kb@.nodes;
    let offset_in_chunk = start.add(kb, BVal(3));
    let offset = BVal(5).add(kb, offset_in_chunk);
    let valid = offset_in_chunk.lt(kb, BVal(2));
    let x = kb.load(BVal(0), offset, valid);
    let val = valid.select(kb, x, BVal(6));
    let is_better = val.gt_f32(kb, best_val);
    let new_val = is_better.select(kb, val, best_val);
    let new_idx = is_better.select(kb, offset_in_chunk, best_idx);
    let wg_size_val = kb.const_u32(WG_SIZE);
    let next = start.add(kb, wg_size_val);
    proof {
        assert(kb@.nodes =~= before + chunk_nodes(i as nat));
        assert(kb@.nodes =~= argmax_large_head() + scan_nodes((i + 1) as nat));
    }
    (new_val, new_idx, next)
}

/// Builds the kernel that finds the largest of up to 8192 values per row: each thread scans
/// 32 chunks of 256 values, then the workgroup compares.
pub fn build_argmax_large() -> (r: BlockKernel)
    ensures
        r@ == (BlockState {
            nodes: argmax_large_head() + scan_nodes(32) + argmax_large_tail(),
            stores: seq![BVal(337)],
            ..BlockState::empty("argmax_large"@, WG_SIZE)
        }),
        r@.wf(),
{
    let mut kb = BlockKernel::new("argmax_large", WG_SIZE);
    let _input_ptr = kb.arg_ptr("input");
    let output_ptr = kb.arg_ptr("output");
    let cols = kb.arg_u32("cols");
    let _tid = kb.thread_id();
    let row_idx = kb.program_id(0);
    let _row_base = row_idx.mul(&mut kb, cols);
    let neg_inf = kb.const_f32(NEG_INFINITY);
    let zero_u = kb.const_u32(0);
    let mut best_val = neg_inf;
    let mut best_idx = zero_u;
    let mut chunk_start = zero_u;
    let ghost head = kb@;
    assert(kb@.nodes =~= argmax_large_head() + scan_nodes(0));
    let mut i: u32 = 0;
    while i < 32
        invariant
            i <= 32,
            kb@ == (BlockState { nodes: argmax_large_head() + scan_nodes(i as nat), ..head }),
            best_val == best_before(i as nat),
            best_idx == place_before(i as nat),
            chunk_start.0 == 7 + 10 * i,
            kb@.typed(chunk_start, BType::U32),
            i > 0 ==> kb@.typed(best_val, BType::F32),
        decreases 32 - i,
    {
        let (v, x, c) = scan_chunk(&mut kb, i, best_val, best_idx, chunk_start);
        best_val = v;
        best_idx = x;
        chunk_start = c;
        i = i + 1;
    }
    let ghost scanned = kb@.nodes;
    proof {
        lemma_scan_len(32);
        assert(kb@.nodes[1] == argmax_large_head()[1]);
        assert(kb@.nodes[4] == argmax_large_head()[4]);
    }
    let global_max = kb.wg_reduce_max(best_val);
    let is_max = best_val.eq_f32(&mut kb, global_max);
    let invalid_idx = kb.const_f32(F32_MAX);
    let best_idx_f = best_idx.to_f32(&mut kb);
    let candidate = is_max.select(&mut kb, best_idx_f, invalid_idx);
    let argmax_f = kb.wg_reduce_min(candidate);
    let one = kb.const_u32(1);
    let is_zero = kb.thread_id().lt(&mut kb, one);
    kb.store(output_ptr, row_idx, argmax_f, is_zero);
    assert(kb@.nodes =~= scanned + argmax_large_tail());
    kb
}

/// The nodes of the kernel that finds the largest of each 256 values and its place.
pub open spec fn argmax_reduce_nodes() -> Seq<BNode<Seq<char>>> {
    seq![
        BNode::ArgPtr("input"@),
        BNode::ArgPtr("out_vals"@),
        BNode::ArgPtr("out_idxs"@),
        BNode::ArgU32("total_cols"@),
        BNode::ThreadId,
        BNode::ProgramId(0),
        BNode::ConstU32(WG_SIZE),
        BNode::MulU32(BVal(5), BVal(6)),
        BNode::AddU32(BVal(7), BVal(4)),
        BNode::LtU32(BVal(8), BVal(3)),
        BNode::Load { ptr: BVal(0), offsets: BVal(8), mask: BVal(9) },
        BNode::ConstF32(NEG_INFINITY),
        BNode::Select { mask: BVal(9), true_val: BVal(10), false_val: BVal(11) },
        BNode::WgReduceMaxF32(BVal(12)),
        BNode::CmpEqF32(BVal(12), BVal(13)),
        BNode::ConstF32(F32_MAX),
        BNode::CvtF32U32(BVal(8)),
        BNode::Select { mask: BVal(14), true_val: BVal(16), false_val: BVal(15) },
        BNode::WgReduceMinF32(BVal(17)),
        BNode::ConstU32(1),
        BNode::LtU32(BVal(4), BVal(19)),
        BNode::Store { ptr: BVal(1), offsets: BVal(5), val: BVal(13), mask: BVal(20) },
        BNode::Store { ptr: BVal(2), offsets: BVal(5), val: BVal(18), mask: BVal(20) },
    ]
}

/// Builds the kernel that finds the largest of each 256 values and its place.
pub fn build_argmax_reduce() -> (r: BlockKernel)
    ensures
        r@ == (BlockState {
            nodes: argmax_reduce_nodes(),
            stores: seq![BVal(21), BVal(22)],
            ..BlockState::empty("argmax_reduce"@, WG_SIZE)
        }),
        r@.wf(),
{
    let mut kb = BlockKernel::new("argmax_reduce", WG_SIZE);
    let input_ptr = kb.arg_ptr("input");
    let out_vals_ptr = kb.arg_ptr("out_vals");
    let out_idxs_ptr = kb.arg_ptr("out_idxs");
    let total_cols = kb.arg_u32("total_cols");
    let tid = kb.thread_id();
    let wg_id = kb.program_id(0);
    let chunk_size_val = kb.const_u32(WG_SIZE);
    let chunk_start = wg_id.mul(&mut kb, chunk_size_val);
    let offset = chunk_start.add(&mut kb, tid);
    let valid = offset.lt(&mut kb, total_cols);
    let x = kb.load(input_ptr, offset, valid);
    let neg_inf = kb.const_f32(NEG_INFINITY);
    let val = valid.select(&mut kb, x, neg_inf);
    let max_val = kb.wg_reduce_max(val);
    let is_max = val.eq_f32(&mut kb, max_val);
    let invalid_idx = kb.const_f32(F32_MAX);
    let offset_f = offset.to_f32(&mut kb);
    let candidate = is_max.select(&mut kb, offset_f, invalid_idx);
    let argmax_f = kb.wg_reduce_min(candidate);
    let one = kb.const_u32(1);
    let is_zero = tid.lt(&mut kb, one);
    kb.store(out_vals_ptr, wg_id, max_val, is_zero);
    kb.store(out_idxs_ptr, wg_id, argmax_f, is_zero);
    kb
}

/// The grid for one workgroup per row.
pub fn argmax_grid(n_rows: u32) -> (r: (u32, u32))
    requires
        n_rows * WG_SIZE <= u32::MAX,
    ensures
        r.0 == n_rows * WG_SIZE,
        r.1 == 1,
{
    (n_rows * WG_SIZE, 1)
}

/// The grid for one workgroup per 256 values.
pub fn argmax_reduce_grid(n_chunks: u32) -> (r: (u32, u32))
    requires
        n_chunks * WG_SIZE <= u32::MAX,
    ensures
        r.0 == n_chunks * WG_SIZE,
        r.1 == 1,
{
    (n_chunks * WG_SIZE, 1)
}

// ── Translation ──
/// Each kernel that finds largest values translates to a function.
pub proof fn argmax_kernels_translate(k: BlockState)
    requires
        k.nodes == argmax_nodes()
            || k.nodes == argmax_reduce_nodes(),
    ensures
        ranges_ascend(k.nodes),
        function_of(k) is Ok,
{
    if k.nodes == argmax_nodes() {
        lemma_argmax_fit(k);
    } else if k.nodes == argmax_reduce_nodes() {
        lemma_argmax_reduce_fit(k);
    }
    fitting_kernels_can_be_translated(k);
}

proof fn lemma_argmax_fit(k: BlockState)
    requires
        k.nodes == argmax_nodes(),
    ensures
        all_fit(k, k.nodes.len()),
{
    reveal_with_fuel(all_fit, 25);
    assert(all_fit(k, 24));
}

proof fn lemma_argmax_reduce_fit(k: BlockState)
    requires
        k.nodes == argmax_reduce_nodes(),
    ensures
        all_fit(k, k.nodes.len()),
{
    reveal_with_fuel(all_fit, 24);
    assert(all_fit(k, 23));
}

proof fn lemma_scan_at(n: nat, i: nat, j: int)
    requires
        i < n,
        0 <= j < 10,
    ensures
        scan_nodes(n).len() == 10 * n,
        scan_nodes(n)[10 * i + j] == chunk_nodes(i)[j],
    decreases n,
{
    lemma_scan_len(n);
    lemma_scan_len((n - 1) as nat);
    if i < n - 1 {
        lemma_scan_at((n - 1) as nat, i, j);
    }
}

proof fn lemma_argmax_chunk(k: BlockState, i: nat, at: int)
    requires
        k.nodes == argmax_large_head() + scan_nodes(32) + argmax_large_tail(),
        i < 32,
        at == 8 + 10 * i,
    ensures
        k.nodes[at + 0] == chunk_nodes(i)[0],
        k.nodes[at + 1] == chunk_nodes(i)[1],
        k.nodes[at + 2] == chunk_nodes(i)[2],
        k.nodes[at + 3] == chunk_nodes(i)[3],
        k.nodes[at + 4] == chunk_nodes(i)[4],
        k.nodes[at + 5] == chunk_nodes(i)[5],
        k.nodes[at + 6] == chunk_nodes(i)[6],
        k.nodes[at + 7] == chunk_nodes(i)[7],
        k.nodes[at + 8] == chunk_nodes(i)[8],
        k.nodes[at + 9] == chunk_nodes(i)[9],
{
    lemma_scan_at(32, i, 0);
    lemma_scan_at(32, i, 1);
    lemma_scan_at(32, i, 2);
    lemma_scan_at(32, i, 3);
    lemma_scan_at(32, i, 4);
    lemma_scan_at(32, i, 5);
    lemma_scan_at(32, i, 6);
    lemma_scan_at(32, i, 7);
    lemma_scan_at(32, i, 8);
    lemma_scan_at(32, i, 9);
}

#[verifier::rlimit(60)]
#[verifier::spinoff_prover]
proof fn lemma_argmax_chunk_fits(k: BlockState, i: nat, at: int)
    requires
        k.nodes == argmax_large_head() + scan_nodes(32) + argmax_large_tail(),
        i < 32,
        at == 8 + 10 * i,
    ensures
        node_fits(k, at + 0),
        node_fits(k, at + 1),
        node_fits(k, at + 2),
        node_fits(k, at + 3),
        node_fits(k, at + 4),
        node_fits(k, at + 5),
        node_fits(k, at + 6),
        node_fits(k, at + 7),
        node_fits(k, at + 8),
        node_fits(k, at + 9),
{
    lemma_scan_len(32);
    let s = k.nodes;
    let head = argmax_large_head();
    assert(s[0] == head[0] && s[2] == head[2] && s[3] == head[3] && s[5] == head[5]);
    assert(s[6] == head[6] && s[7] == head[7]);
    lemma_argmax_chunk(k, i, at);
    if i > 0 {
        lemma_argmax_chunk(k, (i - 1) as nat, at - 10);
        assert(s[at - 4] is Select);
        assert(s[at - 3] is Select);
        assert(s[at - 1] is AddU32);
    }
}

proof fn lemma_argmax_scan_fits(k: BlockState, n: nat)
    requires
        k.nodes == argmax_large_head() + scan_nodes(32) + argmax_large_tail(),
        n <= 32,
    ensures
        all_fit(k, 8 + 10 * n),
    decreases n,
{
    lemma_scan_len(32);
    if n == 0 {
        assert forall|j: int|
            0 <= j < 8 implies #[trigger] k.nodes[j] == argmax_large_head()[j] by {}
        reveal_with_fuel(all_fit, 9);
    } else {
        let i = (n - 1) as nat;
        let at = 8 + 10 * (i as int);
        lemma_argmax_scan_fits(k, i);
        lemma_argmax_chunk(k, i, at);
        lemma_argmax_chunk_fits(k, i, at);
        assert forall|j: int| at <= j < at + 10 implies #[trigger] node_fits(k, j) by {
            let x = j - at;
            assert(x == 0 || x == 1 || x == 2 || x == 3 || x == 4 || x == 5 || x == 6 || x == 7
                || x == 8 || x == 9);
        }
        assert forall|j: int| at <= j < at + 10 implies !(#[trigger] k.nodes[j] is Arange) by {
            let x = j - at;
            assert(x == 0 || x == 1 || x == 2 || x == 3 || x == 4 || x == 5 || x == 6 || x == 7
                || x == 8 || x == 9);
        }
        lemma_more_fit(k, at as nat, (at + 10) as nat);
    }
}

/// The kernel for long rows translates to a function.
pub proof fn argmax_large_translates(k: BlockState)
    requires
        k.nodes == argmax_large_head() + scan_nodes(32) + argmax_large_tail(),
    ensures
        ranges_ascend(k.nodes),
        function_of(k) is Ok,
{
    lemma_scan_len(32);
    lemma_argmax_scan_fits(k, 32);
    lemma_argmax_chunk(k, 31, 318);
    assert(k.nodes[324] is Select);
    assert(k.nodes[325] is Select);
    assert(k.nodes[1] == argmax_large_head()[1]);
    assert(k.nodes[4] == argmax_large_head()[4]);
    assert forall|j: int| 0 <= j < 10 implies #[trigger] k.nodes[328 + j]
        == argmax_large_tail()[j] by {}
    assert forall|j: int| 328 <= j < 338 implies #[trigger] node_fits(k, j) by {
        assert(k.nodes[j] == argmax_large_tail()[j - 328]);
    }
    assert forall|j: int| 328 <= j < 338 implies !(#[trigger] k.nodes[j] is Arange) by {
        assert(k.nodes[j] == argmax_large_tail()[j - 328]);
    }
    lemma_more_fit(k, 328, 338);
    fitting_kernels_can_be_translated(k);
}

// ── What the kernels do ──
/// What a workgroup stores: its first thread stores a word behind a pointer argument, at the
/// number of the workgroup.
pub open spec fn group_stores(l: Launch, t: u32, ptr: int, word: u32) -> Option<Access> {
    if t == 0 {
        Some(Access { ptr, place: (l.group)(0) as int, word })
    } else {
        None
    }
}

/// The values that the threads of a workgroup offer: each its element, or minus infinity
/// where there is none. `first` is where the workgroup begins, `n` how many elements there
/// are from there on.
pub open spec fn offered(l: Launch, first: int, n: int) -> Seq<u32> {
    Seq::new(
        WG_SIZE as nat,
        |u: int|
            if u < n {
                (l.words)(0, first + u)
            } else {
                NEG_INFINITY
            },
    )
}

/// The number of each thread that offers the largest value, as a float, and 255 for others.
pub open spec fn bidders(l: Launch, xs: Seq<u32>) -> Seq<u32> {
    let f = l.floats;
    let most = (f.reduce)(ReduceKind::Max, xs);
    Seq::new(
        WG_SIZE as nat,
        |u: int|
            if (f.less)(xs[u], most) || (f.less)(most, xs[u]) {
                F255
            } else {
                (f.of_word)(u as u32)
            },
    )
}

/// Finding the largest value of a row: the first thread stores the smallest number among the
/// threads that hold it.
pub proof fn argmax_finds_the_first_largest(k: BlockState, l: Launch, t: u32)
    requires
        k.nodes == argmax_nodes(),
        k.block_x == WG_SIZE,
        k.block_size == WG_SIZE,
        t < WG_SIZE,
        (l.group)(0) * (l.args)(2) + WG_SIZE <= u32::MAX,
    ensures
        ({
            let xs = offered(l, (l.group)(0) * (l.args)(2), (l.args)(2) as int);
            stored(k, l, t, 23) == group_stores(
                l,
                t,
                1,
                (l.floats.reduce)(ReduceKind::Min, bidders(l, xs)),
            )
        }),
{
    let (row, cols, f) = ((l.group)(0), (l.args)(2), l.floats);
    let first = row * cols;
    let xs = offered(l, first, cols as int);
    let most = (f.reduce)(ReduceKind::Max, xs);
    let ids = bidders(l, xs);
    assert forall|u: u32| u < WG_SIZE implies #[trigger] value(k, l, u, 10) == xs[u as int] by {
        let v = |i: int| value(k, l, u, i);
        assert(v(0) == 0 && v(2) == cols && v(3) == u && v(4) == row);
        lemma_product(k, l, u, 5, BVal(4), BVal(2), row as int, cols as int);
        assert(v(6) == first + u);
        assert(v(7) != 0 <==> u < cols);
        if u < cols {
            assert(v(8) == (l.words)(0, first + u));
        }
        assert(v(9) == NEG_INFINITY);
    }
    lemma_group_values(k, l, 11, BVal(10), xs);
    assert forall|u: u32| u < WG_SIZE implies #[trigger] value(k, l, u, 18) == ids[u as int] by {
        let v = |i: int| value(k, l, u, i);
        assert(v(10) == xs[u as int]);
        assert(v(11) == most);
        assert(v(12) != 0 <==> (f.less)(xs[u as int], most));
        assert(v(13) != 0 <==> (f.less)(most, xs[u as int]));
        assert(v(14) == F255 && v(15) == u);
        assert(v(16) == (f.of_word)(u));
        assert(v(17) == if v(12) != 0 {
            F255
        } else {
            (f.of_word)(u)
        });
    }
    let v = |i: int| value(k, l, t, i);
    lemma_group_values(k, l, 19, BVal(18), ids);
    assert(v(19) == (f.reduce)(ReduceKind::Min, ids));
    assert(v(20) == 1 && v(21) == t);
    assert(v(22) != 0 <==> t == 0);
    assert(v(1) == 1 && v(4) == row);
}

/// The place of each element of a workgroup that is the largest, as a float, and the largest
/// float for others.
pub open spec fn places_of_largest(l: Launch, xs: Seq<u32>, first: int) -> Seq<u32> {
    let f = l.floats;
    let most = (f.reduce)(ReduceKind::Max, xs);
    Seq::new(
        WG_SIZE as nat,
        |u: int|
            if (f.same)(xs[u], most) {
                (f.of_word)((first + u) as u32)
            } else {
                F32_MAX
            },
    )
}

/// Finding the largest of each 256 values: the first thread stores the largest value, and the
/// smallest place among those where it lies.
pub proof fn argmax_reduce_finds_value_and_place(k: BlockState, l: Launch, t: u32)
    requires
        k.nodes == argmax_reduce_nodes(),
        k.block_x == WG_SIZE,
        k.block_size == WG_SIZE,
        t < WG_SIZE,
        (l.group)(0) * WG_SIZE + WG_SIZE <= u32::MAX,
    ensures
        ({
            let first = (l.group)(0) * WG_SIZE;
            let xs = offered(l, first, (l.args)(3) - first);
            &&& stored(k, l, t, 21) == group_stores(
                l,
                t,
                1,
                (l.floats.reduce)(ReduceKind::Max, xs),
            )
            &&& stored(k, l, t, 22) == group_stores(
                l,
                t,
                2,
                (l.floats.reduce)(ReduceKind::Min, places_of_largest(l, xs, first)),
            )
        }),
{
    let (group, n, f) = ((l.group)(0), (l.args)(3), l.floats);
    let first = group * WG_SIZE;
    let xs = offered(l, first, n - first);
    let ids = places_of_largest(l, xs, first);
    assert forall|u: u32| u < WG_SIZE implies #[trigger] value(k, l, u, 12) == xs[u as int] by {
        lemma_reduce_thread(k, l, u);
    }
    lemma_group_values(k, l, 13, BVal(12), xs);
    assert forall|u: u32| u < WG_SIZE implies #[trigger] value(k, l, u, 17) == ids[u as int] by {
        let v = |i: int| value(k, l, u, i);
        lemma_reduce_thread(k, l, u);
        assert(v(13) == (f.reduce)(ReduceKind::Max, xs));
        assert(v(14) != 0 <==> (f.same)(xs[u as int], v(13)));
        assert(v(15) == F32_MAX);
        assert(v(16) == (f.of_word)((first + u) as u32));
    }
    lemma_group_values(k, l, 18, BVal(17), ids);
    let v = |i: int| value(k, l, t, i);
    assert(v(1) == 1 && v(2) == 2 && v(4) == t && v(5) == group);
    assert(v(13) == (f.reduce)(ReduceKind::Max, xs));
    assert(v(18) == (f.reduce)(ReduceKind::Min, ids));
    assert(v(19) == 1);
    assert(v(20) != 0 <==> t == 0);
}

/// What a thread of that kernel offers.
proof fn lemma_reduce_thread(k: BlockState, l: Launch, u: u32)
    requires
        k.nodes == argmax_reduce_nodes(),
        k.block_x == WG_SIZE,
        u < WG_SIZE,
        (l.group)(0) * WG_SIZE + WG_SIZE <= u32::MAX,
    ensures
        ({
            let first = (l.group)(0) * WG_SIZE;
            &&& value(k, l, u, 8) == first + u
            &&& value(k, l, u, 12) == offered(l, first, (l.args)(3) - first)[u as int]
        }),
{
    let (group, n) = ((l.group)(0), (l.args)(3));
    let v = |i: int| value(k, l, u, i);
    assert(v(0) == 0 && v(3) == n && v(4) == u && v(5) == group && v(6) == WG_SIZE);
    lemma_product(k, l, u, 7, BVal(5), BVal(6), group as int, WG_SIZE as int);
    assert(v(8) == group * WG_SIZE + u);
    assert(v(9) != 0 <==> group * WG_SIZE + u < n);
    if group * WG_SIZE + u < n {
        assert(v(10) == (l.words)(0, group * WG_SIZE + u));
    }
    assert(v(11) == NEG_INFINITY);
}

/// The largest value that thread `t` finds in the first `n` chunks of a row, and its place; the
/// earliest where there are several.
pub open spec fn scanned(l: Launch, t: u32, n: nat) -> (u32, u32)
    decreases n,
{
    if n == 0 {
        (NEG_INFINITY, 0)
    } else {
        let (best, place) = scanned(l, t, (n - 1) as nat);
        let col = WG_SIZE * (n - 1) + t;
        let x = if col < (l.args)(2) {
            (l.words)(0, (l.group)(0) * (l.args)(2) + col)
        } else {
            NEG_INFINITY
        };
        if (l.floats.less)(best, x) {
            (x, col as u32)
        } else {
            (best, place)
        }
    }
}

/// What the threads find in all chunks.
pub open spec fn finds(l: Launch) -> Seq<u32> {
    Seq::new(WG_SIZE as nat, |u: int| scanned(l, u as u32, 32).0)
}

/// Where the threads find the largest value of the row, as floats, and the largest float for
/// those that do not.
pub open spec fn found_places(l: Launch) -> Seq<u32> {
    let f = l.floats;
    let most = (f.reduce)(ReduceKind::Max, finds(l));
    Seq::new(
        WG_SIZE as nat,
        |u: int|
            if (f.same)(finds(l)[u], most) {
                (f.of_word)(scanned(l, u as u32, 32).1)
            } else {
                F32_MAX
            },
    )
}

proof fn lemma_scanned(k: BlockState, l: Launch, t: u32, n: nat)
    requires
        k.nodes == argmax_large_head() + scan_nodes(32) + argmax_large_tail(),
        k.block_x == WG_SIZE,
        t < WG_SIZE,
        n <= 32,
        (l.group)(0) * (l.args)(2) + WG_SIZE * 32 <= u32::MAX,
    ensures
        value(k, l, t, best_before(n).0 as int) == scanned(l, t, n).0,
        value(k, l, t, place_before(n).0 as int) == scanned(l, t, n).1,
        value(k, l, t, 7 + 10 * (n as int)) == WG_SIZE * n,
    decreases n,
{
    lemma_scan_len(32);
    let (row, cols, f) = ((l.group)(0), (l.args)(2), l.floats);
    let v = |i: int| value(k, l, t, i);
    let s = k.nodes;
    let head = argmax_large_head();
    assert(s[0] == head[0] && s[2] == head[2] && s[3] == head[3] && s[4] == head[4]);
    assert(s[5] == head[5] && s[6] == head[6] && s[7] == head[7]);
    assert(v(0) == 0 && v(2) == cols && v(3) == t && v(4) == row);
    assert(v(6) == NEG_INFINITY && v(7) == 0);
    lemma_product(k, l, t, 5, BVal(4), BVal(2), row as int, cols as int);
    if n > 0 {
        let i = (n - 1) as nat;
        let at = 8 + 10 * (i as int);
        let col = WG_SIZE * i + t;
        let (best, place) = scanned(l, t, i);
        lemma_scanned(k, l, t, i);
        lemma_argmax_chunk(k, i, at);
        let x = if col < cols {
            (l.words)(0, row * cols + col)
        } else {
            NEG_INFINITY
        };
        assert(v(at - 1) == WG_SIZE * i);
        assert(v(at + 0) == col);
        assert(v(at + 1) == row * cols + col);
        assert(v(at + 2) != 0 <==> col < cols);
        if col < cols {
            assert(v(at + 3) == x);
        }
        assert(v(at + 4) == x);
        assert(best_before(i).0 < at && place_before(i).0 < at);
        assert(v(at + 5) != 0 <==> (f.less)(best, x));
        assert(v(at + 6) == scanned(l, t, n).0);
        assert(v(at + 7) == scanned(l, t, n).1);
        assert(v(at + 8) == WG_SIZE);
        assert(v(at + 9) == WG_SIZE * n);
        assert(best_before(n).0 == at + 6 && place_before(n).0 == at + 7);
    }
}

/// Finding the largest value of a long row: each thread scans every 256th element, and the
/// first thread stores the smallest of the places that the threads with the largest value
/// found.
pub proof fn argmax_large_finds_the_largest(k: BlockState, l: Launch, t: u32)
    requires
        k.nodes == argmax_large_head() + scan_nodes(32) + argmax_large_tail(),
        k.block_x == WG_SIZE,
        k.block_size == WG_SIZE,
        t < WG_SIZE,
        (l.group)(0) * (l.args)(2) + WG_SIZE * 32 <= u32::MAX,
    ensures
        stored(k, l, t, 337) == group_stores(
            l,
            t,
            1,
            (l.floats.reduce)(ReduceKind::Min, found_places(l)),
        ),
{
    lemma_scan_len(32);
    let f = l.floats;
    let s = k.nodes;
    let tail = argmax_large_tail();
    assert forall|j: int| 328 <= j < 338 implies #[trigger] s[j] == tail[j - 328] by {}
    assert forall|u: u32| u < WG_SIZE implies #[trigger] value(k, l, u, 324)
        == finds(l)[u as int] by {
        lemma_scanned(k, l, u, 32);
    }
    lemma_group_values(k, l, 328, BVal(324), finds(l));
    let most = (f.reduce)(ReduceKind::Max, finds(l));
    assert forall|u: u32| u < WG_SIZE implies #[trigger] value(k, l, u, 332)
        == found_places(l)[u as int] by {
        let v = |i: int| value(k, l, u, i);
        lemma_scanned(k, l, u, 32);
        assert(v(324) == scanned(l, u, 32).0 && v(325) == scanned(l, u, 32).1);
        assert(v(328) == most);
        assert(v(329) != 0 <==> (f.same)(v(324), most));
        assert(v(330) == F32_MAX && v(331) == (f.of_word)(v(325)));
    }
    lemma_group_values(k, l, 333, BVal(332), found_places(l));
    let v = |i: int| value(k, l, t, i);
    assert(s[1] == argmax_large_head()[1] && s[4] == argmax_large_head()[4]);
    assert(v(1) == 1 && v(4) == (l.group)(0));
    assert(v(333) == (f.reduce)(ReduceKind::Min, found_places(l)));
    assert(v(334) == 1 && v(335) == t);
    assert(v(336) != 0 <==> t == 0);
}

} // verus!
