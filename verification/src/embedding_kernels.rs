//! Kernels that look rows up in a table, how they are launched, and what they compute.
use vstd::prelude::*;

use crate::attention_kernels::{copied, copy_row};
use crate::block_dsl::{BNode, BVal, BlockKernel, BlockState};
use crate::block_dsl_to_ssa::{
    all_fit, fitting_kernels_can_be_translated, function_of, ranges_ascend,
};
use crate::lanes::{Access, Launch, added, lemma_product, stored, value, widened};

verus! {

/// Threads per workgroup.
pub const WG_SIZE: u32 = 256;

/// The nodes of the kernel that looks rows up in a table.
pub open spec fn embedding_forward_nodes() -> Seq<BNode<Seq<char>>> {
    seq![
        BNode::ArgPtr("table"@),
        BNode::ArgPtr("indices"@),
        BNode::ArgPtr("output"@),
        BNode::ArgU32("dim"@),
        BNode::ThreadId,
        BNode::ProgramId(0),
        BNode::LtU32(BVal(4), BVal(3)),
        BNode::ConstU32(0),
        BNode::MulU32(BVal(4), BVal(7)),
        BNode::AddU32(BVal(8), BVal(5)),
        BNode::LoadU32 { ptr: BVal(1), offsets: BVal(9), mask: BVal(6) },
        BNode::MulU32(BVal(10), BVal(3)),
        BNode::AddU32(BVal(11), BVal(4)),
        BNode::MulU32(BVal(5), BVal(3)),
        BNode::AddU32(BVal(13), BVal(4)),
        BNode::Load { ptr: BVal(0), offsets: BVal(12), mask: BVal(6) },
        BNode::Store { ptr: BVal(2), offsets: BVal(14), val: BVal(15), mask: BVal(6) },
    ]
}

/// Builds the kernel that looks rows up in a table.
pub fn build_embedding_forward() -> (r: BlockKernel)
    ensures
        r@ == (BlockState {
            nodes: embedding_forward_nodes(),
            stores: seq![BVal(16)],
            ..BlockState::empty("embedding_fwd"@, WG_SIZE)
        }),
        r@.wf(),
{
    let mut kb = BlockKernel::new("embedding_fwd", WG_SIZE);
    let table_ptr = kb.arg_ptr("table");
    let indices_ptr = kb.arg_ptr("indices");
    let output_ptr = kb.arg_ptr("output");
    let dim = kb.arg_u32("dim");
    let tid = kb.thread_id();
    let pid = kb.program_id(0);
    let mask = tid.lt(&mut kb, dim);
    let zero_u = kb.const_u32(0);
    let pid_scalar = tid.mul(&mut kb, zero_u).add(&mut kb, pid);
    let idx = kb.load_u32(indices_ptr, pid_scalar, mask);
    let table_row = idx.mul(&mut kb, dim);
    let table_offset = table_row.add(&mut kb, tid);
    let out_row = pid.mul(&mut kb, dim);
    let out_offset = out_row.add(&mut kb, tid);
    let val = kb.load(table_ptr, table_offset, mask);
    kb.store(output_ptr, out_offset, val, mask);
    kb
}

/// The nodes of the kernel that adds gradients to the rows they came from.
pub open spec fn embedding_backward_nodes() -> Seq<BNode<Seq<char>>> {
    seq![
        BNode::ArgPtr("grad_table"@),
        BNode::ArgPtr("indices"@),
        BNode::ArgPtr("grad_output"@),
        BNode::ArgU32("dim"@),
        BNode::ThreadId,
        BNode::ProgramId(0),
        BNode::LtU32(BVal(4), BVal(3)),
        BNode::ConstU32(0),
        BNode::MulU32(BVal(4), BVal(7)),
        BNode::AddU32(BVal(8), BVal(5)),
        BNode::LoadU32 { ptr: BVal(1), offsets: BVal(9), mask: BVal(6) },
        BNode::MulU32(BVal(5), BVal(3)),
        BNode::AddU32(BVal(11), BVal(4)),
        BNode::Load { ptr: BVal(2), offsets: BVal(12), mask: BVal(6) },
        BNode::MulU32(BVal(10), BVal(3)),
        BNode::AddU32(BVal(14), BVal(4)),
        BNode::AtomicAddF32 { ptr: BVal(0), offsets: BVal(15), val: BVal(13), mask: BVal(6) },
    ]
}

/// Builds the kernel that adds gradients to the rows they came from.
pub fn build_embedding_backward() -> (r: BlockKernel)
    ensures
        r@ == (BlockState {
            nodes: embedding_backward_nodes(),
            stores: seq![BVal(16)],
            ..BlockState::empty("embedding_bwd"@, WG_SIZE)
        }),
        r@.wf(),
{
    let mut kb = BlockKernel::new("embedding_bwd", WG_SIZE);
    let grad_table_ptr = kb.arg_ptr("grad_table");
    let indices_ptr = kb.arg_ptr("indices");
    let grad_output_ptr = kb.arg_ptr("grad_output");
    let dim = kb.arg_u32("dim");
    let tid = kb.thread_id();
    let pid = kb.program_id(0);
    let mask = tid.lt(&mut kb, dim);
    let zero_u = kb.const_u32(0);
    let pid_scalar = tid.mul(&mut kb, zero_u).add(&mut kb, pid);
    let idx = kb.load_u32(indices_ptr, pid_scalar, mask);
    let out_row = pid.mul(&mut kb, dim);
    let out_offset = out_row.add(&mut kb, tid);
    let grad_val = kb.load(grad_output_ptr, out_offset, mask);
    let table_row = idx.mul(&mut kb, dim);
    let table_offset = table_row.add(&mut kb, tid);
    kb.atomic_add_f32(grad_table_ptr, table_offset, grad_val, mask);
    kb
}

/// The nodes of the kernel that looks one row of bf16 values up as floats.
pub open spec fn embedding_gather_bf16_nodes() -> Seq<BNode<Seq<char>>> {
    seq![
        BNode::ArgPtr("table"@),
        BNode::ArgPtr("output"@),
        BNode::ArgU32("token_id"@),
        BNode::ArgU32("dim"@),
        BNode::ThreadId,
        BNode::ConstU32(0),
        BNode::MulU32(BVal(2), BVal(3)),
        BNode::ForBegin { start: BVal(5), end: BVal(3), step: WG_SIZE },
        BNode::AddU32(BVal(7), BVal(4)),
        BNode::LtU32(BVal(8), BVal(3)),
        BNode::AddU32(BVal(6), BVal(8)),
        BNode::LoadBf16 { ptr: BVal(0), offsets: BVal(10), mask: BVal(9) },
        BNode::Store { ptr: BVal(1), offsets: BVal(8), val: BVal(11), mask: BVal(9) },
        BNode::ForEnd { begin_node: 7 },
    ]
}

/// Builds the kernel that looks one row of bf16 values up as floats.
pub fn build_embedding_gather_bf16() -> (r: BlockKernel)
    ensures
        r@ == (BlockState {
            nodes: embedding_gather_bf16_nodes(),
            stores: seq![BVal(12)],
            ..BlockState::empty("emb_gather_bf16"@, WG_SIZE)
        }),
        r@.wf(),
{
    let mut kb = BlockKernel::new("emb_gather_bf16", WG_SIZE);
    let table_ptr = kb.arg_ptr("table");
    let output_ptr = kb.arg_ptr("output");
    let token_id = kb.arg_u32("token_id");
    let dim = kb.arg_u32("dim");
    let tid = kb.thread_id();
    let zero = kb.const_u32(0);
    let row_offset = token_id.mul(&mut kb, dim);
    let iter = kb.for_range(zero, dim, WG_SIZE);
    let col = iter.add(&mut kb, tid);
    let mask = col.lt(&mut kb, dim);
    let src_offset = row_offset.add(&mut kb, col);
    let val = kb.load_bf16(table_ptr, src_offset, mask);
    kb.store(output_ptr, col, val, mask);
    kb.end_for(iter);
    kb
}

/// The grid for one workgroup per token.
pub fn embedding_grid(num_tokens: u32) -> (r: (u32, u32))
    requires
        num_tokens * WG_SIZE <= u32::MAX,
    ensures
        r.0 == num_tokens * WG_SIZE,
        r.1 == 1,
{
    (num_tokens * WG_SIZE, 1)
}

/// Threads per workgroup.
pub fn embedding_wg_size() -> (r: u32)
    ensures
        r == WG_SIZE,
{
    WG_SIZE
}

// ── What the kernels compute ──
/// The rows of a table that the first `n` tokens ask for, one behind the other.
pub open spec fn looked_up<T>(
    out: Seq<T>,
    table: Seq<T>,
    indices: Seq<u32>,
    dim: int,
    n: nat,
) -> Seq<T>
    decreases n,
{
    if n == 0 {
        out
    } else {
        copied(
            looked_up(out, table, indices, dim, (n - 1) as nat),
            (n - 1) * dim,
            table,
            indices[n - 1] * dim,
            dim,
        )
    }
}

/// Whether every row asked for is in the table, and the output has room.
pub open spec fn lookup_fits(
    table: int,
    indices: Seq<u32>,
    out: int,
    num_tokens: int,
    dim: int,
) -> bool {
    &&& num_tokens <= indices.len()
    &&& dim > 0 ==> {
        &&& num_tokens * dim <= out
        &&& forall|t: int|
            0 <= t < num_tokens ==> #[trigger] indices[t] * dim + dim <= table
    }
}

/// Rows of no length leave everything as it is.
proof fn lemma_empty_rows<T>(out: Seq<T>, table: Seq<T>, indices: Seq<u32>, n: nat)
    ensures
        looked_up(out, table, indices, 0, n) == out,
    decreases n,
{
    if n > 0 {
        lemma_empty_rows(out, table, indices, (n - 1) as nat);
        assert(looked_up(out, table, indices, 0, n) =~= out);
    }
}

/// Looks rows up in a table.
pub fn cpu_embedding_forward<T: Copy>(
    table: &[T],
    indices: &[u32],
    output: &mut [T],
    num_tokens: usize,
    dim: usize,
)
    requires
        lookup_fits(
            table@.len() as int,
            indices@,
            old(output)@.len() as int,
            num_tokens as int,
            dim as int,
        ),
    ensures
        final(output)@ == looked_up(old(output)@, table@, indices@, dim as int, num_tokens as nat),
{
    if dim == 0 {
        proof {
            lemma_empty_rows(output@, table@, indices@, num_tokens as nat);
        }
        return ;
    }
    let table_len: usize = table.len();
    let out_len: usize = output.len();
    let mut t: usize = 0;
    while t < num_tokens
        invariant
            t <= num_tokens,
            dim > 0,
            table_len == table@.len(),
            out_len == old(output)@.len(),
            output@.len() == old(output)@.len(),
            lookup_fits(
                table@.len() as int,
                indices@,
                old(output)@.len() as int,
                num_tokens as int,
                dim as int,
            ),
            output@ == looked_up(old(output)@, table@, indices@, dim as int, t as nat),
        decreases num_tokens - t,
    {
        let idx: usize = indices[t] as usize;
        proof {
            assert(indices@[t as int] * dim + dim <= table@.len());
            assert(0 <= idx * dim) by (nonlinear_arith)
                requires
                    0 <= idx,
                    0 <= dim,
            ;
            assert(0 <= t * dim && t * dim + dim <= num_tokens * dim) by (nonlinear_arith)
                requires
                    0 <= t <= num_tokens - 1,
                    0 <= dim,
            ;
        }
        copy_row(output, t * dim, table, idx * dim, dim);
        t = t + 1;
    }
}

/// Looking up does not change the length.
proof fn lemma_looked_up_len<T>(out: Seq<T>, table: Seq<T>, indices: Seq<u32>, dim: int, n: nat)
    ensures
        looked_up(out, table, indices, dim, n).len() == out.len(),
    decreases n,
{
    if n > 0 {
        lemma_looked_up_len(out, table, indices, dim, (n - 1) as nat);
    }
}

/// Element `d` of the row of token `t` is element `d` of the row that the token asks for.
pub proof fn lookup_gives_table_rows<T>(
    out: Seq<T>,
    table: Seq<T>,
    indices: Seq<u32>,
    dim: int,
    n: nat,
    t: int,
    d: int,
)
    requires
        0 <= t < n,
        0 <= d < dim,
        n * dim <= out.len(),
    ensures
        looked_up(out, table, indices, dim, n)[t * dim + d] == table[indices[t] * dim + d],
    decreases n,
{
    lemma_looked_up_len(out, table, indices, dim, n);
    lemma_looked_up_len(out, table, indices, dim, (n - 1) as nat);
    assert(0 <= t * dim && t * dim + dim <= n * dim) by (nonlinear_arith)
        requires
            0 <= t <= n - 1,
            0 <= dim,
    ;
    if t < n - 1 {
        assert((n - 1) * dim <= n * dim) by (nonlinear_arith)
            requires
                0 <= dim,
        ;
        assert(t * dim + dim <= (n - 1) * dim) by (nonlinear_arith)
            requires
                t <= n - 2,
                0 <= dim,
        ;
        lookup_gives_table_rows(out, table, indices, dim, (n - 1) as nat, t, d);
    }
}

/// The bits of the float that a bf16 value stands for, from its two bytes, low one first.
pub open spec fn bf16_bits(low: u8, high: u8) -> u32 {
    ((low as nat + high as nat * 256) * 65536) as u32
}

/// Looks one row of bf16 values up; the floats are given by their bits.
pub fn cpu_embedding_gather_bf16(table_bf16_bytes: &[u8], token_id: u32, dim: usize) -> (r: Vec<
    u32,
>)
    requires
        dim > 0 ==> token_id * dim * 2 + dim * 2 <= table_bf16_bytes@.len(),
    ensures
        r@ == Seq::new(
            dim as nat,
            |i: int|
                bf16_bits(
                    table_bf16_bytes@[token_id * dim * 2 + i * 2],
                    table_bf16_bytes@[token_id * dim * 2 + i * 2 + 1],
                ),
        ),
{
    let mut out: Vec<u32> = Vec::new();
    if dim == 0 {
        return out;
    }
    let len: usize = table_bf16_bytes.len();
    assert(0 <= token_id * dim) by (nonlinear_arith)
        requires
            0 <= token_id,
            0 <= dim,
    ;
    let row_start: usize = token_id as usize * dim * 2;
    let mut i: usize = 0;
    while i < dim
        invariant
            i <= dim,
            len == table_bf16_bytes@.len(),
            row_start == token_id * dim * 2,
            row_start + dim * 2 <= len,
            out@ == Seq::new(
                i as nat,
                |j: int|
                    bf16_bits(
                        table_bf16_bytes@[token_id * dim * 2 + j * 2],
                        table_bf16_bytes@[token_id * dim * 2 + j * 2 + 1],
                    ),
            ),
        decreases dim - i,
    {
        let offset: usize = row_start + i * 2;
        let low: u32 = table_bf16_bytes[offset] as u32;
        let high: u32 = table_bf16_bytes[offset + 1] as u32;
        out.push((low + high * 256) * 65536);
        i = i + 1;
        assert(out@ =~= Seq::new(
            i as nat,
            |j: int|
                bf16_bits(
                    table_bf16_bytes@[token_id * dim * 2 + j * 2],
                    table_bf16_bytes@[token_id * dim * 2 + j * 2 + 1],
                ),
        ));
    }
    out
}

// ── Translation ──
/// Each kernel on tables of vectors translates to a function.
pub proof fn embedding_kernels_translate(k: BlockState)
    requires
        k.nodes == embedding_forward_nodes()
            || k.nodes == embedding_backward_nodes()
            || k.nodes == embedding_gather_bf16_nodes(),
    ensures
        ranges_ascend(k.nodes),
        function_of(k) is Ok,
{
    if k.nodes == embedding_forward_nodes() {
        lemma_embedding_forward_fit(k);
    } else if k.nodes == embedding_backward_nodes() {
        lemma_embedding_backward_fit(k);
    } else if k.nodes == embedding_gather_bf16_nodes() {
        lemma_embedding_gather_bf16_fit(k);
    }
    fitting_kernels_can_be_translated(k);
}

proof fn lemma_embedding_forward_fit(k: BlockState)
    requires
        k.nodes == embedding_forward_nodes(),
    ensures
        all_fit(k, k.nodes.len()),
{
    reveal_with_fuel(all_fit, 18);
    assert(all_fit(k, 17));
}

proof fn lemma_embedding_backward_fit(k: BlockState)
    requires
        k.nodes == embedding_backward_nodes(),
    ensures
        all_fit(k, k.nodes.len()),
{
    reveal_with_fuel(all_fit, 18);
    assert(all_fit(k, 17));
}

proof fn lemma_embedding_gather_bf16_fit(k: BlockState)
    requires
        k.nodes == embedding_gather_bf16_nodes(),
    ensures
        all_fit(k, k.nodes.len()),
{
    reveal_with_fuel(all_fit, 15);
    assert(all_fit(k, 14));
}

// ── What the kernels do ──
/// Looking up: the threads of a token store the row of its index,
/// `output[token, col] = table[indices[token], col]`.
pub proof fn embedding_forward_looks_up(k: BlockState, l: Launch, t: u32)
    requires
        k.nodes == embedding_forward_nodes(),
        k.block_x == WG_SIZE,
        t < WG_SIZE,
        (l.words)(1, (l.group)(0) as int) * (l.args)(3) + t <= u32::MAX,
        (l.group)(0) * (l.args)(3) + t <= u32::MAX,
    ensures
        ({
            let (token, dim) = ((l.group)(0), (l.args)(3));
            let index = (l.words)(1, token as int);
            stored(k, l, t, 16) == if t < dim {
                Some(
                    Access {
                        ptr: 2,
                        place: token * dim + t,
                        word: (l.words)(0, index * dim + t),
                    },
                )
            } else {
                None
            }
        }),
{
    let (token, dim) = ((l.group)(0), (l.args)(3));
    let index = (l.words)(1, token as int);
    let v = |i: int| value(k, l, t, i);
    assert(v(0) == 0 && v(1) == 1 && v(2) == 2 && v(3) == dim && v(4) == t && v(5) == token);
    assert(v(6) != 0 <==> t < dim);
    assert(v(7) == 0);
    lemma_product(k, l, t, 8, BVal(4), BVal(7), t as int, 0);
    assert(v(9) == token);
    if t < dim {
        assert(v(10) == index);
        lemma_product(k, l, t, 11, BVal(10), BVal(3), index as int, dim as int);
        lemma_product(k, l, t, 13, BVal(5), BVal(3), token as int, dim as int);
        assert(v(12) == index * dim + t && v(14) == token * dim + t);
        assert(v(15) == (l.words)(0, index * dim + t));
    }
}

/// Adding gradients: the threads of a token add its gradient to the row of its index,
/// `grad_table[indices[token], col] += grad_output[token, col]`.
pub proof fn embedding_backward_adds(k: BlockState, l: Launch, t: u32)
    requires
        k.nodes == embedding_backward_nodes(),
        k.block_x == WG_SIZE,
        t < WG_SIZE,
        (l.words)(1, (l.group)(0) as int) * (l.args)(3) + t <= u32::MAX,
        (l.group)(0) * (l.args)(3) + t <= u32::MAX,
    ensures
        ({
            let (token, dim) = ((l.group)(0), (l.args)(3));
            let index = (l.words)(1, token as int);
            added(k, l, t, 16) == if t < dim {
                Some(
                    Access {
                        ptr: 0,
                        place: index * dim + t,
                        word: (l.words)(2, token * dim + t),
                    },
                )
            } else {
                None
            }
        }),
{
    let (token, dim) = ((l.group)(0), (l.args)(3));
    let index = (l.words)(1, token as int);
    let v = |i: int| value(k, l, t, i);
    assert(v(0) == 0 && v(1) == 1 && v(2) == 2 && v(3) == dim && v(4) == t && v(5) == token);
    assert(v(6) != 0 <==> t < dim);
    assert(v(7) == 0);
    lemma_product(k, l, t, 8, BVal(4), BVal(7), t as int, 0);
    assert(v(9) == token);
    if t < dim {
        assert(v(10) == index);
        lemma_product(k, l, t, 11, BVal(5), BVal(3), token as int, dim as int);
        lemma_product(k, l, t, 14, BVal(10), BVal(3), index as int, dim as int);
        assert(v(12) == token * dim + t && v(15) == index * dim + t);
        assert(v(13) == (l.words)(2, token * dim + t));
    }
}

/// Looking up bf16: in the turn that starts at column `turn`, a thread stores its column of
/// the token's row as a float.
pub proof fn embedding_gather_widens(k: BlockState, l: Launch, t: u32)
    requires
        k.nodes == embedding_gather_bf16_nodes(),
        k.block_x == WG_SIZE,
        t < WG_SIZE,
        l.turn + t <= u32::MAX,
        (l.args)(2) * (l.args)(3) + l.turn + t <= u32::MAX,
    ensures
        ({
            let (token, dim) = ((l.args)(2), (l.args)(3));
            let col = l.turn + t;
            stored(k, l, t, 12) == if col < dim {
                Some(
                    Access { ptr: 1, place: col, word: widened((l.halves)(0, token * dim + col)) },
                )
            } else {
                None
            }
        }),
{
    let (token, dim) = ((l.args)(2), (l.args)(3));
    let v = |i: int| value(k, l, t, i);
    assert(v(0) == 0 && v(1) == 1 && v(2) == token && v(3) == dim && v(4) == t);
    lemma_product(k, l, t, 6, BVal(2), BVal(3), token as int, dim as int);
    assert(v(7) == l.turn);
    assert(v(8) == l.turn + t);
    assert(v(9) != 0 <==> l.turn + t < dim);
    assert(v(10) == token * dim + l.turn + t);
}

} // verus!
