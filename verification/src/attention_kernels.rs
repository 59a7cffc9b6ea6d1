//! Kernels around attention, how they are launched, and what they compute.
use vstd::prelude::*;

use crate::block_dsl::{BNode, BVal, BlockKernel, BlockState, NEG_INFINITY};
use crate::block_dsl_to_ssa::{
    all_fit, fitting_kernels_can_be_translated, function_of, ranges_ascend,
};
use crate::lanes::{Access, Launch, lemma_product, stored, value};

verus! {

/// Threads per workgroup.
pub const WG_SIZE: u32 = 128;

/// The nodes of the kernel that takes the columns of one head out of rows that hold all heads.
pub open spec fn attn_gather_nodes() -> Seq<BNode<Seq<char>>> {
    seq![
        BNode::ArgPtr("in"@),
        BNode::ArgPtr("out"@),
        BNode::ArgU32("head_dim"@),
        BNode::ArgU32("stride"@),
        BNode::ArgU32("h"@),
        BNode::ArgU32("rows"@),
        BNode::ThreadId,
        BNode::ProgramId(0),
        BNode::LtU32(BVal(6), BVal(2)),
        BNode::MulU32(BVal(7), BVal(3)),
        BNode::MulU32(BVal(4), BVal(2)),
        BNode::AddU32(BVal(9), BVal(10)),
        BNode::AddU32(BVal(11), BVal(6)),
        BNode::MulU32(BVal(7), BVal(2)),
        BNode::AddU32(BVal(13), BVal(6)),
        BNode::Load { ptr: BVal(0), offsets: BVal(12), mask: BVal(8) },
        BNode::Store { ptr: BVal(1), offsets: BVal(14), val: BVal(15), mask: BVal(8) },
    ]
}

/// Builds the kernel that takes the columns of one head out of rows that hold all heads.
pub fn build_attn_gather() -> (r: BlockKernel)
    ensures
        r@ == (BlockState {
            nodes: attn_gather_nodes(),
            stores: seq![BVal(16)],
            ..BlockState::empty("attn_gather"@, WG_SIZE)
        }),
        r@.wf(),
{
    let mut kb = BlockKernel::new("attn_gather", WG_SIZE);
    let in_ptr = kb.arg_ptr("in");
    let out_ptr = kb.arg_ptr("out");
    let head_dim = kb.arg_u32("head_dim");
    let stride = kb.arg_u32("stride");
    let h = kb.arg_u32("h");
    let _rows = kb.arg_u32("rows");
    let tid = kb.thread_id();
    let pid = kb.program_id(0);
    let in_bounds = tid.lt(&mut kb, head_dim);
    let row_base = pid.mul(&mut kb, stride);
    let h_base = h.mul(&mut kb, head_dim);
    let in_offset = row_base.add(&mut kb, h_base).add(&mut kb, tid);
    let out_offset = pid.mul(&mut kb, head_dim).add(&mut kb, tid);
    let val = kb.load(in_ptr, in_offset, in_bounds);
    kb.store(out_ptr, out_offset, val, in_bounds);
    kb
}

/// The nodes of the kernel that transposes a matrix.
pub open spec fn attn_transpose_nodes() -> Seq<BNode<Seq<char>>> {
    seq![
        BNode::ArgPtr("in"@),
        BNode::ArgPtr("out"@),
        BNode::ArgU32("cols"@),
        BNode::ArgU32("rows"@),
        BNode::ThreadId,
        BNode::ProgramId(0),
        BNode::LtU32(BVal(4), BVal(2)),
        BNode::MulU32(BVal(5), BVal(2)),
        BNode::AddU32(BVal(7), BVal(4)),
        BNode::MulU32(BVal(4), BVal(3)),
        BNode::AddU32(BVal(9), BVal(5)),
        BNode::Load { ptr: BVal(0), offsets: BVal(8), mask: BVal(6) },
        BNode::Store { ptr: BVal(1), offsets: BVal(10), val: BVal(11), mask: BVal(6) },
    ]
}

/// Builds the kernel that transposes a matrix.
pub fn build_attn_transpose() -> (r: BlockKernel)
    ensures
        r@ == (BlockState {
            nodes: attn_transpose_nodes(),
            stores: seq![BVal(12)],
            ..BlockState::empty("attn_transpose"@, WG_SIZE)
        }),
        r@.wf(),
{
    let mut kb = BlockKernel::new("attn_transpose", WG_SIZE);
    let in_ptr = kb.arg_ptr("in");
    let out_ptr = kb.arg_ptr("out");
    let cols = kb.arg_u32("cols");
    let _rows = kb.arg_u32("rows");
    let tid = kb.thread_id();
    let pid = kb.program_id(0);
    let in_bounds = tid.lt(&mut kb, cols);
    let in_offset = pid.mul(&mut kb, cols).add(&mut kb, tid);
    let out_offset = tid.mul(&mut kb, _rows).add(&mut kb, pid);
    let val = kb.load(in_ptr, in_offset, in_bounds);
    kb.store(out_ptr, out_offset, val, in_bounds);
    kb
}

/// The nodes of the kernel that scales scores.
pub open spec fn attn_scale_nodes() -> Seq<BNode<Seq<char>>> {
    seq![
        BNode::ArgPtr("in"@),
        BNode::ArgPtr("out"@),
        BNode::ArgU32("cols"@),
        BNode::ArgF32("scale"@),
        BNode::ThreadId,
        BNode::ProgramId(0),
        BNode::MulU32(BVal(5), BVal(2)),
        BNode::AddU32(BVal(6), BVal(4)),
        BNode::LtU32(BVal(4), BVal(2)),
        BNode::Load { ptr: BVal(0), offsets: BVal(7), mask: BVal(8) },
        BNode::MulF32(BVal(9), BVal(3)),
        BNode::Store { ptr: BVal(1), offsets: BVal(7), val: BVal(10), mask: BVal(8) },
    ]
}

/// Builds the kernel that scales scores.
pub fn build_attn_scale() -> (r: BlockKernel)
    ensures
        r@ == (BlockState {
            nodes: attn_scale_nodes(),
            stores: seq![BVal(11)],
            ..BlockState::empty("attn_scale"@, WG_SIZE)
        }),
        r@.wf(),
{
    let mut kb = BlockKernel::new("attn_scale", WG_SIZE);
    let in_ptr = kb.arg_ptr("in");
    let out_ptr = kb.arg_ptr("out");
    let cols = kb.arg_u32("cols");
    let scale = kb.arg_f32("scale");
    let tid = kb.thread_id();
    let pid = kb.program_id(0);
    let row_base = pid.mul(&mut kb, cols);
    let offset = row_base.add(&mut kb, tid);
    let in_bounds = tid.lt(&mut kb, cols);
    let val = kb.load(in_ptr, offset, in_bounds);
    let scaled = val.mul(&mut kb, scale);
    kb.store(out_ptr, offset, scaled, in_bounds);
    kb
}

/// The nodes of the kernel that scales scores and hides those of later positions.
pub open spec fn attn_scale_causal_nodes() -> Seq<BNode<Seq<char>>> {
    seq![
        BNode::ArgPtr("in"@),
        BNode::ArgPtr("out"@),
        BNode::ArgU32("cols"@),
        BNode::ArgF32("scale"@),
        BNode::ThreadId,
        BNode::ProgramId(0),
        BNode::MulU32(BVal(5), BVal(2)),
        BNode::AddU32(BVal(6), BVal(4)),
        BNode::LtU32(BVal(4), BVal(2)),
        BNode::Load { ptr: BVal(0), offsets: BVal(7), mask: BVal(8) },
        BNode::MulF32(BVal(9), BVal(3)),
        BNode::ConstU32(1),
        BNode::AddU32(BVal(5), BVal(11)),
        BNode::LtU32(BVal(4), BVal(12)),
        BNode::ConstF32(NEG_INFINITY),
        BNode::Select { mask: BVal(13), true_val: BVal(10), false_val: BVal(14) },
        BNode::Store { ptr: BVal(1), offsets: BVal(7), val: BVal(15), mask: BVal(8) },
    ]
}

/// Builds the kernel that scales scores and hides those of later positions.
pub fn build_attn_scale_causal() -> (r: BlockKernel)
    ensures
        r@ == (BlockState {
            nodes: attn_scale_causal_nodes(),
            stores: seq![BVal(16)],
            ..BlockState::empty("attn_scale_causal"@, WG_SIZE)
        }),
        r@.wf(),
{
    let mut kb = BlockKernel::new("attn_scale_causal", WG_SIZE);
    let in_ptr = kb.arg_ptr("in");
    let out_ptr = kb.arg_ptr("out");
    let cols = kb.arg_u32("cols");
    let scale = kb.arg_f32("scale");
    let tid = kb.thread_id();
    let pid = kb.program_id(0);
    let row_base = pid.mul(&mut kb, cols);
    let offset = row_base.add(&mut kb, tid);
    let in_bounds = tid.lt(&mut kb, cols);
    let val = kb.load(in_ptr, offset, in_bounds);
    let scaled = val.mul(&mut kb, scale);
    let one_u = kb.const_u32(1);
    let pid_plus_one = pid.add(&mut kb, one_u);
    let is_valid = tid.lt(&mut kb, pid_plus_one);
    let neg_inf = kb.const_f32(NEG_INFINITY);
    let masked = is_valid.select(&mut kb, scaled, neg_inf);
    kb.store(out_ptr, offset, masked, in_bounds);
    kb
}

/// The nodes of the kernel that puts the columns of one head back among all heads.
pub open spec fn attn_scatter_nodes() -> Seq<BNode<Seq<char>>> {
    seq![
        BNode::ArgPtr("in"@),
        BNode::ArgPtr("out"@),
        BNode::ArgU32("head_dim"@),
        BNode::ArgU32("stride"@),
        BNode::ArgU32("h"@),
        BNode::ArgU32("rows"@),
        BNode::ThreadId,
        BNode::ProgramId(0),
        BNode::LtU32(BVal(6), BVal(2)),
        BNode::MulU32(BVal(7), BVal(2)),
        BNode::AddU32(BVal(9), BVal(6)),
        BNode::MulU32(BVal(7), BVal(3)),
        BNode::MulU32(BVal(4), BVal(2)),
        BNode::AddU32(BVal(11), BVal(12)),
        BNode::AddU32(BVal(13), BVal(6)),
        BNode::Load { ptr: BVal(0), offsets: BVal(10), mask: BVal(8) },
        BNode::Store { ptr: BVal(1), offsets: BVal(14), val: BVal(15), mask: BVal(8) },
    ]
}

/// Builds the kernel that puts the columns of one head back among all heads.
pub fn build_attn_scatter() -> (r: BlockKernel)
    ensures
        r@ == (BlockState {
            nodes: attn_scatter_nodes(),
            stores: seq![BVal(16)],
            ..BlockState::empty("attn_scatter"@, WG_SIZE)
        }),
        r@.wf(),
{
    let mut kb = BlockKernel::new("attn_scatter", WG_SIZE);
    let in_ptr = kb.arg_ptr("in");
    let out_ptr = kb.arg_ptr("out");
    let head_dim = kb.arg_u32("head_dim");
    let stride = kb.arg_u32("stride");
    let h = kb.arg_u32("h");
    let _rows = kb.arg_u32("rows");
    let tid = kb.thread_id();
    let pid = kb.program_id(0);
    let in_bounds = tid.lt(&mut kb, head_dim);
    let in_offset = pid.mul(&mut kb, head_dim).add(&mut kb, tid);
    let row_base = pid.mul(&mut kb, stride);
    let h_base = h.mul(&mut kb, head_dim);
    let out_offset = row_base.add(&mut kb, h_base).add(&mut kb, tid);
    let val = kb.load(in_ptr, in_offset, in_bounds);
    kb.store(out_ptr, out_offset, val, in_bounds);
    kb
}

/// The grid for one workgroup per row.
pub fn attn_gather_grid(rows: u32) -> (r: (u32, u32))
    requires
        rows * WG_SIZE <= u32::MAX,
    ensures
        r.0 == rows * WG_SIZE,
        r.1 == 1,
{
    (rows * WG_SIZE, 1)
}

/// The grid for one workgroup per row.
pub fn attn_transpose_grid(rows: u32) -> (r: (u32, u32))
    requires
        rows * WG_SIZE <= u32::MAX,
    ensures
        r.0 == rows * WG_SIZE,
        r.1 == 1,
{
    (rows * WG_SIZE, 1)
}

/// The grid for one workgroup per row.
pub fn attn_scale_grid(rows: u32) -> (r: (u32, u32))
    requires
        rows * WG_SIZE <= u32::MAX,
    ensures
        r.0 == rows * WG_SIZE,
        r.1 == 1,
{
    (rows * WG_SIZE, 1)
}

/// The grid for one workgroup per row.
pub fn attn_scatter_grid(rows: u32) -> (r: (u32, u32))
    requires
        rows * WG_SIZE <= u32::MAX,
    ensures
        r.0 == rows * WG_SIZE,
        r.1 == 1,
{
    (rows * WG_SIZE, 1)
}

// ── What the kernels compute ──
/// `out` with `n` elements from place `at` on replaced by those of `inp` from place `from` on.
pub open spec fn copied<T>(out: Seq<T>, at: int, inp: Seq<T>, from: int, n: int) -> Seq<T> {
    Seq::new(
        out.len(),
        |i: int|
            if at <= i < at + n {
                inp[from + i - at]
            } else {
                out[i]
            },
    )
}

/// Copies `n` elements.
pub(crate) fn copy_row<T: Copy>(out: &mut [T], at: usize, inp: &[T], from: usize, n: usize)
    requires
        at + n <= old(out)@.len(),
        from + n <= inp@.len(),
    ensures
        final(out)@ == copied(old(out)@, at as int, inp@, from as int, n as int),
{
    let out_len: usize = out.len();
    let inp_len: usize = inp.len();
    let mut i: usize = 0;
    assert(out@ =~= copied(old(out)@, at as int, inp@, from as int, 0));
    while i < n
        invariant
            i <= n,
            at + n <= old(out)@.len(),
            from + n <= inp@.len(),
            out_len == old(out)@.len(),
            inp_len == inp@.len(),
            out@ == copied(old(out)@, at as int, inp@, from as int, i as int),
        decreases n - i,
    {
        out[at + i] = inp[from + i];
        i = i + 1;
        assert(out@ =~= copied(old(out)@, at as int, inp@, from as int, i as int));
    }
}

/// The columns of head `h`, taken row by row out of rows that hold all heads.
pub open spec fn gathered<T>(
    out: Seq<T>,
    inp: Seq<T>,
    head_dim: int,
    stride: int,
    h: int,
    rows: nat,
) -> Seq<T>
    decreases rows,
{
    if rows == 0 {
        out
    } else {
        copied(
            gathered(out, inp, head_dim, stride, h, (rows - 1) as nat),
            (rows - 1) * head_dim,
            inp,
            (rows - 1) * stride + h * head_dim,
            head_dim,
        )
    }
}

/// The columns of head `h`, put row by row back among all heads.
pub open spec fn scattered<T>(
    out: Seq<T>,
    inp: Seq<T>,
    head_dim: int,
    stride: int,
    h: int,
    rows: nat,
) -> Seq<T>
    decreases rows,
{
    if rows == 0 {
        out
    } else {
        copied(
            scattered(out, inp, head_dim, stride, h, (rows - 1) as nat),
            (rows - 1) * stride + h * head_dim,
            inp,
            (rows - 1) * head_dim,
            head_dim,
        )
    }
}

/// Whether `rows` rows of head `h` lie within `wide` elements, and their columns within
/// `narrow`.
pub open spec fn heads_fit(
    wide: int,
    narrow: int,
    head_dim: int,
    stride: int,
    h: int,
    rows: int,
) -> bool {
    rows > 0 && head_dim > 0 ==> {
        &&& (rows - 1) * stride + h * head_dim + head_dim <= wide
        &&& rows * head_dim <= narrow
    }
}

/// The places of one row, among those of all rows.
proof fn lemma_row_places(row: int, rows: int, head_dim: int, stride: int, h: int)
    requires
        0 <= row < rows,
        0 <= head_dim,
        0 <= stride,
        0 <= h,
    ensures
        0 <= row * stride <= (rows - 1) * stride,
        0 <= row * head_dim,
        row * head_dim + head_dim <= rows * head_dim,
        0 <= h * head_dim,
{
    assert(0 <= row * stride <= (rows - 1) * stride) by (nonlinear_arith)
        requires
            0 <= row <= rows - 1,
            0 <= stride,
    ;
    assert(0 <= row * head_dim && row * head_dim + head_dim <= rows * head_dim)
        by (nonlinear_arith)
        requires
            0 <= row <= rows - 1,
            0 <= head_dim,
    ;
    assert(0 <= h * head_dim) by (nonlinear_arith)
        requires
            0 <= h,
            0 <= head_dim,
    ;
}

/// Nothing is taken where rows have no columns.
proof fn lemma_no_columns<T>(out: Seq<T>, inp: Seq<T>, stride: int, h: int, rows: nat)
    ensures
        gathered(out, inp, 0, stride, h, rows) == out,
        scattered(out, inp, 0, stride, h, rows) == out,
    decreases rows,
{
    if rows > 0 {
        lemma_no_columns(out, inp, stride, h, (rows - 1) as nat);
        assert(gathered(out, inp, 0, stride, h, rows) =~= out);
        assert(scattered(out, inp, 0, stride, h, rows) =~= out);
    }
}

/// Takes the columns of head `h` out of rows that hold all heads.
pub fn cpu_attn_gather<T: Copy>(
    out: &mut [T],
    inp: &[T],
    head_dim: usize,
    stride: usize,
    h: usize,
    rows: usize,
)
    requires
        heads_fit(
            inp@.len() as int,
            old(out)@.len() as int,
            head_dim as int,
            stride as int,
            h as int,
            rows as int,
        ),
    ensures
        final(out)@ == gathered(
            old(out)@,
            inp@,
            head_dim as int,
            stride as int,
            h as int,
            rows as nat,
        ),
{
    if head_dim == 0 {
        proof {
            lemma_no_columns(out@, inp@, stride as int, h as int, rows as nat);
        }
        return ;
    }
    let out_len: usize = out.len();
    let inp_len: usize = inp.len();
    let mut row: usize = 0;
    while row < rows
        invariant
            row <= rows,
            head_dim > 0,
            out_len == old(out)@.len(),
            inp_len == inp@.len(),
            out@.len() == old(out)@.len(),
            heads_fit(
                inp@.len() as int,
                old(out)@.len() as int,
                head_dim as int,
                stride as int,
                h as int,
                rows as int,
            ),
            out@ == gathered(
                old(out)@,
                inp@,
                head_dim as int,
                stride as int,
                h as int,
                row as nat,
            ),
        decreases rows - row,
    {
        proof {
            lemma_row_places(
                row as int,
                rows as int,
                head_dim as int,
                stride as int,
                h as int,
            );
        }
        copy_row(out, row * head_dim, inp, row * stride + h * head_dim, head_dim);
        row = row + 1;
    }
}

/// Puts the columns of head `h` back among all heads.
pub fn cpu_attn_scatter<T: Copy>(
    out: &mut [T],
    inp: &[T],
    head_dim: usize,
    stride: usize,
    h: usize,
    rows: usize,
)
    requires
        heads_fit(
            old(out)@.len() as int,
            inp@.len() as int,
            head_dim as int,
            stride as int,
            h as int,
            rows as int,
        ),
    ensures
        final(out)@ == scattered(
            old(out)@,
            inp@,
            head_dim as int,
            stride as int,
            h as int,
            rows as nat,
        ),
{
    if head_dim == 0 {
        proof {
            lemma_no_columns(out@, inp@, stride as int, h as int, rows as nat);
        }
        return ;
    }
    let out_len: usize = out.len();
    let inp_len: usize = inp.len();
    let mut row: usize = 0;
    while row < rows
        invariant
            row <= rows,
            head_dim > 0,
            out_len == old(out)@.len(),
            inp_len == inp@.len(),
            out@.len() == old(out)@.len(),
            heads_fit(
                old(out)@.len() as int,
                inp@.len() as int,
                head_dim as int,
                stride as int,
                h as int,
                rows as int,
            ),
            out@ == scattered(
                old(out)@,
                inp@,
                head_dim as int,
                stride as int,
                h as int,
                row as nat,
            ),
        decreases rows - row,
    {
        proof {
            lemma_row_places(
                row as int,
                rows as int,
                head_dim as int,
                stride as int,
                h as int,
            );
        }
        copy_row(out, row * stride + h * head_dim, inp, row * head_dim, head_dim);
        row = row + 1;
    }
}

/// What a place of the gathered columns holds.
proof fn lemma_gathered_at<T>(
    out: Seq<T>,
    inp: Seq<T>,
    head_dim: int,
    stride: int,
    h: int,
    rows: nat,
    row: int,
    col: int,
)
    requires
        0 <= row < rows,
        0 <= col < head_dim,
        rows * head_dim <= out.len(),
    ensures
        gathered(out, inp, head_dim, stride, h, rows).len() == out.len(),
        0 <= row * head_dim + col < out.len(),
        gathered(out, inp, head_dim, stride, h, rows)[row * head_dim + col] == inp[row * stride + h
            * head_dim + col],
    decreases rows,
{
    assert(0 <= row * head_dim && row * head_dim + head_dim <= rows * head_dim)
        by (nonlinear_arith)
        requires
            0 <= row <= rows - 1,
            0 <= head_dim,
    ;
    lemma_gathered_len(out, inp, head_dim, stride, h, rows);
    lemma_gathered_len(out, inp, head_dim, stride, h, (rows - 1) as nat);
    if row < rows - 1 {
        assert((rows - 1) * head_dim <= rows * head_dim) by (nonlinear_arith)
            requires
                0 <= head_dim,
        ;
        assert(row * head_dim + head_dim <= (rows - 1) * head_dim) by (nonlinear_arith)
            requires
                row <= rows - 2,
                0 <= head_dim,
        ;
        lemma_gathered_at(out, inp, head_dim, stride, h, (rows - 1) as nat, row, col);
    }
}

/// Gathering does not change the length.
proof fn lemma_gathered_len<T>(
    out: Seq<T>,
    inp: Seq<T>,
    head_dim: int,
    stride: int,
    h: int,
    rows: nat,
)
    ensures
        gathered(out, inp, head_dim, stride, h, rows).len() == out.len(),
    decreases rows,
{
    if rows > 0 {
        lemma_gathered_len(out, inp, head_dim, stride, h, (rows - 1) as nat);
    }
}

/// Scattering does not change the length.
proof fn lemma_scattered_len<T>(
    out: Seq<T>,
    inp: Seq<T>,
    head_dim: int,
    stride: int,
    h: int,
    rows: nat,
)
    ensures
        scattered(out, inp, head_dim, stride, h, rows).len() == out.len(),
    decreases rows,
{
    if rows > 0 {
        lemma_scattered_len(out, inp, head_dim, stride, h, (rows - 1) as nat);
    }
}

/// What a place of the scattered columns holds.
proof fn lemma_scattered_at<T>(
    out: Seq<T>,
    inp: Seq<T>,
    head_dim: int,
    stride: int,
    h: int,
    rows: nat,
    row: int,
    col: int,
)
    requires
        0 <= row < rows,
        0 <= col < head_dim <= stride,
        0 <= h,
        (rows - 1) * stride + h * head_dim + head_dim <= out.len(),
    ensures
        scattered(out, inp, head_dim, stride, h, rows).len() == out.len(),
        scattered(out, inp, head_dim, stride, h, rows)[row * stride + h * head_dim + col]
            == inp[row * head_dim + col],
    decreases rows,
{
    lemma_row_places(row, rows as int, head_dim, stride, h);
    lemma_scattered_len(out, inp, head_dim, stride, h, rows);
    lemma_scattered_len(out, inp, head_dim, stride, h, (rows - 1) as nat);
    if row < rows - 1 {
        assert(row * stride + stride <= (rows - 1) * stride) by (nonlinear_arith)
            requires
                row <= rows - 2,
                0 <= stride,
        ;
        assert((rows - 2) * stride <= (rows - 1) * stride) by (nonlinear_arith)
            requires
                0 <= stride,
        ;
        lemma_scattered_at(out, inp, head_dim, stride, h, (rows - 1) as nat, row, col);
    }
}

/// Gathering a head out of rows that it was scattered to gives it back, in the first places
/// of buffers that may be longer.
pub proof fn gather_undoes_scatter<T>(
    out: Seq<T>,
    wide: Seq<T>,
    inp: Seq<T>,
    head_dim: int,
    stride: int,
    h: int,
    rows: nat,
)
    requires
        0 < head_dim <= stride,
        0 <= h,
        inp.len() >= rows * head_dim,
        out.len() >= rows * head_dim,
        rows > 0 ==> (rows - 1) * stride + h * head_dim + head_dim <= wide.len(),
    ensures
        gathered(
            out,
            scattered(wide, inp, head_dim, stride, h, rows),
            head_dim,
            stride,
            h,
            rows,
        ).take(rows * head_dim) == inp.take(rows * head_dim),
{
    let s = scattered(wide, inp, head_dim, stride, h, rows);
    let g = gathered(out, s, head_dim, stride, h, rows);
    lemma_gathered_len(out, s, head_dim, stride, h, rows);
    let n = rows * head_dim;
    assert(0 <= n) by (nonlinear_arith)
        requires
            n == rows * head_dim,
            0 < head_dim,
    ;
    assert forall|i: int| 0 <= i < n implies g.take(n)[i] == #[trigger] inp.take(n)[i] by {
        let row = i / head_dim;
        let col = i % head_dim;
        vstd::arithmetic::div_mod::lemma_fundamental_div_mod(i, head_dim);
        vstd::arithmetic::mul::lemma_mul_is_commutative(head_dim, row);
        assert(0 <= row < rows) by (nonlinear_arith)
            requires
                0 <= i < rows * head_dim,
                head_dim > 0,
                row == i / head_dim,
        ;
        lemma_gathered_at(out, s, head_dim, stride, h, rows, row, col);
        lemma_scattered_at(wide, inp, head_dim, stride, h, rows, row, col);
    }
    assert(g.take(n) =~= inp.take(n));
}

/// The transposed matrix: place `c * rows + r` holds what was at `r * cols + c`.
pub open spec fn transposed<T>(out: Seq<T>, inp: Seq<T>, cols: int, rows: int) -> Seq<T> {
    Seq::new(
        out.len(),
        |i: int|
            if i < rows * cols {
                inp[(i % rows) * cols + i / rows]
            } else {
                out[i]
            },
    )
}

/// The matrix after the first `row` rows and the first `col` elements of the next.
spec fn transposing<T>(
    out: Seq<T>,
    inp: Seq<T>,
    cols: int,
    rows: int,
    row: int,
    col: int,
) -> Seq<T> {
    Seq::new(
        out.len(),
        |i: int|
            if i < rows * cols && (i % rows < row || (i % rows == row && i / rows < col)) {
                inp[(i % rows) * cols + i / rows]
            } else {
                out[i]
            },
    )
}

/// A place of a matrix, from its line and the place within.
proof fn lemma_place(line: int, within: int, width: int, lines: int)
    requires
        0 <= line < lines,
        0 <= within < width,
    ensures
        0 <= line * width + within < lines * width,
        (line * width + within) / width == line,
        (line * width + within) % width == within,
        0 <= line * width,
{
    assert(0 <= line * width && line * width + width <= lines * width) by (nonlinear_arith)
        requires
            0 <= line <= lines - 1,
            0 < width,
    ;
    vstd::arithmetic::div_mod::lemma_fundamental_div_mod_converse(
        line * width + within,
        width,
        line,
        within,
    );
}

/// Transposes a matrix.
pub fn cpu_attn_transpose<T: Copy>(out: &mut [T], inp: &[T], cols: usize, rows: usize)
    requires
        rows * cols <= old(out)@.len(),
        rows * cols <= inp@.len(),
    ensures
        final(out)@ == transposed(old(out)@, inp@, cols as int, rows as int),
{
    let out_len: usize = out.len();
    let inp_len: usize = inp.len();
    let ghost w = cols as int;
    let ghost n = rows as int;
    assert(w * n == n * w) by (nonlinear_arith);
    let mut row: usize = 0;
    proof {
        let start = transposing(old(out)@, inp@, w, n, 0, 0);
        assert forall|i: int| 0 <= i < out@.len() implies out@[i] == #[trigger] start[i] by {
            if i < n * w {
                assert(n > 0) by (nonlinear_arith)
                    requires
                        0 <= i < n * w,
                        0 <= n,
                        0 <= w,
                ;
                assert(i / n >= 0) by (nonlinear_arith)
                    requires
                        0 <= i,
                        n > 0,
                ;
            }
        }
        assert(out@ =~= start);
    }
    while row < rows
        invariant
            row <= rows,
            w == cols as int,
            n == rows as int,
            w * n == n * w,
            out_len == old(out)@.len(),
            inp_len == inp@.len(),
            n * w <= old(out)@.len(),
            n * w <= inp@.len(),
            out@ == transposing(old(out)@, inp@, w, n, row as int, 0),
        decreases rows - row,
    {
        let mut col: usize = 0;
        while col < cols
            invariant
                row < rows,
                col <= cols,
                w == cols as int,
                n == rows as int,
                w * n == n * w,
                out_len == old(out)@.len(),
                inp_len == inp@.len(),
                n * w <= old(out)@.len(),
                n * w <= inp@.len(),
                out@ == transposing(old(out)@, inp@, w, n, row as int, col as int),
            decreases cols - col,
        {
            proof {
                lemma_place(col as int, row as int, n, w);
                lemma_place(row as int, col as int, w, n);
            }
            let ghost before = out@;
            let at: usize = col * rows + row;
            out[at] = inp[row * cols + col];
            proof {
                let after = transposing(old(out)@, inp@, w, n, row as int, col + 1);
                assert forall|i: int|
                    0 <= i < out@.len() implies out@[i] == #[trigger] after[i] by {
                    if i < n * w && i != at {
                        vstd::arithmetic::div_mod::lemma_fundamental_div_mod(i, n);
                        vstd::arithmetic::mul::lemma_mul_is_commutative(n, i / n);
                        assert(!(i % n == row as int && i / n == col as int));
                        assert(out@[i] == before[i]);
                    }
                }
                assert(out@ =~= after);
            }
            col = col + 1;
        }
        proof {
            let after = transposing(old(out)@, inp@, w, n, row + 1, 0);
            assert forall|i: int| 0 <= i < out@.len() implies out@[i] == #[trigger] after[i] by {
                if i < n * w {
                    assert(i / n < w && i / n >= 0) by (nonlinear_arith)
                        requires
                            0 <= i < n * w,
                            n > 0,
                    ;
                }
            }
            assert(out@ =~= after);
        }
        row = row + 1;
    }
    proof {
        let done = transposed(old(out)@, inp@, w, n);
        assert forall|i: int| 0 <= i < out@.len() implies out@[i] == #[trigger] done[i] by {
            if i < n * w {
                assert(n > 0) by (nonlinear_arith)
                    requires
                        0 <= i < n * w,
                        0 <= n,
                        0 <= w,
                ;
                assert(i % n < n);
            }
        }
        assert(out@ =~= done);
    }
}

/// Transposing twice gives the matrix back.
pub proof fn transpose_undoes_itself<T>(
    once: Seq<T>,
    twice: Seq<T>,
    inp: Seq<T>,
    cols: int,
    rows: int,
)
    requires
        0 < cols,
        0 < rows,
        inp.len() == rows * cols,
        once.len() == rows * cols,
        twice.len() == rows * cols,
    ensures
        transposed(twice, transposed(once, inp, cols, rows), rows, cols) == inp,
{
    let t = transposed(once, inp, cols, rows);
    let u = transposed(twice, t, rows, cols);
    assert(cols * rows == rows * cols) by (nonlinear_arith);
    assert forall|i: int| 0 <= i < inp.len() implies u[i] == #[trigger] inp[i] by {
        vstd::arithmetic::div_mod::lemma_fundamental_div_mod(i, cols);
        let r = i / cols;
        let c = i % cols;
        assert(0 <= r < rows) by (nonlinear_arith)
            requires
                0 <= i < rows * cols,
                cols > 0,
                r == i / cols,
        ;
        vstd::arithmetic::mul::lemma_mul_is_commutative(cols, r);
        lemma_place(c, r, rows, cols);
        assert(u[i] == t[c * rows + r]);
    }
    assert(u =~= inp);
}

// ── Translation ──
/// Each kernel that prepares attention translates to a function.
pub proof fn attention_kernels_translate(k: BlockState)
    requires
        k.nodes == attn_gather_nodes()
            || k.nodes == attn_transpose_nodes()
            || k.nodes == attn_scale_nodes()
            || k.nodes == attn_scale_causal_nodes()
            || k.nodes == attn_scatter_nodes(),
    ensures
        ranges_ascend(k.nodes),
        function_of(k) is Ok,
{
    if k.nodes == attn_gather_nodes() {
        lemma_attn_gather_fit(k);
    } else if k.nodes == attn_transpose_nodes() {
        lemma_attn_transpose_fit(k);
    } else if k.nodes == attn_scale_nodes() {
        lemma_attn_scale_fit(k);
    } else if k.nodes == attn_scale_causal_nodes() {
        lemma_attn_scale_causal_fit(k);
    } else if k.nodes == attn_scatter_nodes() {
        lemma_attn_scatter_fit(k);
    }
    fitting_kernels_can_be_translated(k);
}

proof fn lemma_attn_gather_fit(k: BlockState)
    requires
        k.nodes == attn_gather_nodes(),
    ensures
        all_fit(k, k.nodes.len()),
{
    reveal_with_fuel(all_fit, 18);
    assert(all_fit(k, 17));
}

proof fn lemma_attn_transpose_fit(k: BlockState)
    requires
        k.nodes == attn_transpose_nodes(),
    ensures
        all_fit(k, k.nodes.len()),
{
    reveal_with_fuel(all_fit, 14);
    assert(all_fit(k, 13));
}

proof fn lemma_attn_scale_fit(k: BlockState)
    requires
        k.nodes == attn_scale_nodes(),
    ensures
        all_fit(k, k.nodes.len()),
{
    reveal_with_fuel(all_fit, 13);
    assert(all_fit(k, 12));
}

proof fn lemma_attn_scale_causal_fit(k: BlockState)
    requires
        k.nodes == attn_scale_causal_nodes(),
    ensures
        all_fit(k, k.nodes.len()),
{
    reveal_with_fuel(all_fit, 18);
    assert(all_fit(k, 17));
}

proof fn lemma_attn_scatter_fit(k: BlockState)
    requires
        k.nodes == attn_scatter_nodes(),
    ensures
        all_fit(k, k.nodes.len()),
{
    reveal_with_fuel(all_fit, 18);
    assert(all_fit(k, 17));
}

// ── What the kernels do ──
/// Whether a thread is one of a workgroup of 128.
pub open spec fn runs(k: BlockState, t: u32) -> bool {
    &&& k.block_x == WG_SIZE
    &&& t < WG_SIZE
}

/// Gathering: the threads of a row store the columns of head `h`,
/// `out[row * head_dim + col] = in[row * stride + h * head_dim + col]`.
pub proof fn attn_gather_gathers(k: BlockState, l: Launch, t: u32)
    requires
        k.nodes == attn_gather_nodes(),
        runs(k, t),
        (l.group)(0) * (l.args)(3) + (l.args)(4) * (l.args)(2) + t <= u32::MAX,
        (l.group)(0) * (l.args)(2) + t <= u32::MAX,
    ensures
        ({
            let (row, dim, stride, h) = ((l.group)(0), (l.args)(2), (l.args)(3), (l.args)(4));
            stored(k, l, t, 16) == if t < dim {
                Some(
                    Access {
                        ptr: 1,
                        place: row * dim + t,
                        word: (l.words)(0, row * stride + h * dim + t),
                    },
                )
            } else {
                None
            }
        }),
{
    let (row, dim, stride, h) = ((l.group)(0), (l.args)(2), (l.args)(3), (l.args)(4));
    let v = |i: int| value(k, l, t, i);
    assert(0 <= row * stride && 0 <= h * dim && 0 <= row * dim) by (nonlinear_arith);
    assert(v(0) == 0 && v(1) == 1);
    assert(v(2) == dim && v(3) == stride && v(4) == h && v(6) == t && v(7) == row);
    assert(v(8) != 0 <==> t < dim);
    lemma_product(k, l, t, 9, BVal(7), BVal(3), row as int, stride as int);
    lemma_product(k, l, t, 10, BVal(4), BVal(2), h as int, dim as int);
    lemma_product(k, l, t, 13, BVal(7), BVal(2), row as int, dim as int);
    assert(v(11) == row * stride + h * dim && v(14) == row * dim + t);
    assert(v(12) == row * stride + h * dim + t);
}

/// Scattering: the threads of a row store the columns of head `h`,
/// `out[row * stride + h * head_dim + col] = in[row * head_dim + col]`.
pub proof fn attn_scatter_scatters(k: BlockState, l: Launch, t: u32)
    requires
        k.nodes == attn_scatter_nodes(),
        runs(k, t),
        (l.group)(0) * (l.args)(3) + (l.args)(4) * (l.args)(2) + t <= u32::MAX,
        (l.group)(0) * (l.args)(2) + t <= u32::MAX,
    ensures
        ({
            let (row, dim, stride, h) = ((l.group)(0), (l.args)(2), (l.args)(3), (l.args)(4));
            stored(k, l, t, 16) == if t < dim {
                Some(
                    Access {
                        ptr: 1,
                        place: row * stride + h * dim + t,
                        word: (l.words)(0, row * dim + t),
                    },
                )
            } else {
                None
            }
        }),
{
    let (row, dim, stride, h) = ((l.group)(0), (l.args)(2), (l.args)(3), (l.args)(4));
    let v = |i: int| value(k, l, t, i);
    assert(v(0) == 0 && v(1) == 1);
    assert(v(2) == dim && v(3) == stride && v(4) == h && v(6) == t && v(7) == row);
    assert(v(8) != 0 <==> t < dim);
    assert(0 <= row * stride && 0 <= h * dim && 0 <= row * dim) by (nonlinear_arith);
    lemma_product(k, l, t, 9, BVal(7), BVal(2), row as int, dim as int);
    lemma_product(k, l, t, 11, BVal(7), BVal(3), row as int, stride as int);
    lemma_product(k, l, t, 12, BVal(4), BVal(2), h as int, dim as int);
    assert(v(10) == row * dim + t && v(13) == row * stride + h * dim);
    assert(v(14) == row * stride + h * dim + t);
}

/// Transposing: the threads of a row store it as a column,
/// `out[col * rows + row] = in[row * cols + col]`.
pub proof fn attn_transpose_transposes(k: BlockState, l: Launch, t: u32)
    requires
        k.nodes == attn_transpose_nodes(),
        runs(k, t),
        (l.group)(0) * (l.args)(2) + t <= u32::MAX,
        t * (l.args)(3) + (l.group)(0) <= u32::MAX,
    ensures
        ({
            let (row, cols, rows) = ((l.group)(0), (l.args)(2), (l.args)(3));
            stored(k, l, t, 12) == if t < cols {
                Some(
                    Access {
                        ptr: 1,
                        place: t * rows + row,
                        word: (l.words)(0, row * cols + t),
                    },
                )
            } else {
                None
            }
        }),
{
    let (row, cols, rows) = ((l.group)(0), (l.args)(2), (l.args)(3));
    let v = |i: int| value(k, l, t, i);
    assert(v(0) == 0 && v(1) == 1 && v(2) == cols && v(3) == rows && v(4) == t && v(5) == row);
    assert(v(6) != 0 <==> t < cols);
    lemma_product(k, l, t, 7, BVal(5), BVal(2), row as int, cols as int);
    lemma_product(k, l, t, 9, BVal(4), BVal(3), t as int, rows as int);
    assert(v(8) == row * cols + t && v(10) == t * rows + row);
}

/// Scaling: the threads of a row store its scores times the factor.
pub proof fn attn_scale_scales(k: BlockState, l: Launch, t: u32)
    requires
        k.nodes == attn_scale_nodes(),
        runs(k, t),
        (l.group)(0) * (l.args)(2) + t <= u32::MAX,
    ensures
        ({
            let at = (l.group)(0) * (l.args)(2) + t;
            stored(k, l, t, 11) == if t < (l.args)(2) {
                Some(
                    Access {
                        ptr: 1,
                        place: at,
                        word: l.floats.times((l.words)(0, at), (l.args)(3)),
                    },
                )
            } else {
                None
            }
        }),
{
    let (row, cols) = ((l.group)(0), (l.args)(2));
    let v = |i: int| value(k, l, t, i);
    assert(v(0) == 0 && v(1) == 1 && v(2) == cols && v(3) == (l.args)(3));
    assert(v(4) == t && v(5) == row);
    lemma_product(k, l, t, 6, BVal(5), BVal(2), row as int, cols as int);
    assert(v(7) == row * cols + t);
    assert(v(8) != 0 <==> t < cols);
    if t < cols {
        assert(v(9) == (l.words)(0, row * cols + t));
    }
}

/// Scaling with a mask: the scores of a row times the factor up to the row's own position,
/// and minus infinity behind it.
pub proof fn attn_scale_causal_hides_later(k: BlockState, l: Launch, t: u32)
    requires
        k.nodes == attn_scale_causal_nodes(),
        runs(k, t),
        (l.group)(0) * (l.args)(2) + t <= u32::MAX,
        (l.group)(0) < u32::MAX,
    ensures
        ({
            let (row, cols) = ((l.group)(0), (l.args)(2));
            let at = row * cols + t;
            stored(k, l, t, 16) == if t < cols {
                Some(
                    Access {
                        ptr: 1,
                        place: at,
                        word: if t <= row {
                            l.floats.times((l.words)(0, at), (l.args)(3))
                        } else {
                            NEG_INFINITY
                        },
                    },
                )
            } else {
                None
            }
        }),
{
    let (row, cols) = ((l.group)(0), (l.args)(2));
    let v = |i: int| value(k, l, t, i);
    assert(v(0) == 0 && v(1) == 1 && v(2) == cols && v(3) == (l.args)(3));
    assert(v(4) == t && v(5) == row);
    lemma_product(k, l, t, 6, BVal(5), BVal(2), row as int, cols as int);
    assert(v(7) == row * cols + t);
    assert(v(8) != 0 <==> t < cols);
    if t < cols {
        assert(v(9) == (l.words)(0, row * cols + t));
    }
    assert(v(11) == 1);
    assert(v(12) == row + 1);
    assert(v(13) != 0 <==> t <= row);
    assert(v(14) == NEG_INFINITY);
    if t < cols {
        assert(v(10) == l.floats.times((l.words)(0, row * cols + t), (l.args)(3)));
    }
}

} // verus!
