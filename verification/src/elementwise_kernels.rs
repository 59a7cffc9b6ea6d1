//! Kernels that work element by element, and how they are launched.
use vstd::prelude::*;

use crate::block_dsl::{BNode, BType, BVal, BlockKernel, BlockState, node_type};
use crate::block_dsl_to_ssa::{
    all_fit, fitting_kernels_can_be_translated, fitting_kernels_translate, function_of, has_value,
    lemma_more_fit, node_fits, ranges_ascend,
};
use crate::gemm_gen::{ceil_div, tiles_cover};
use crate::lanes::{Access, Launch, lemma_product, stored, value};

verus! {

/// Threads per workgroup.
pub const WG_SIZE: u32 = 256;

/// The nodes of the kernel that copies.
pub open spec fn memcpy_nodes() -> Seq<BNode<Seq<char>>> {
    seq![
        BNode::ArgPtr("input"@),
        BNode::ArgPtr("output"@),
        BNode::ArgU32("n"@),
        BNode::ThreadId,
        BNode::ProgramId(0),
        BNode::ConstU32(WG_SIZE),
        BNode::MulU32(BVal(4), BVal(5)),
        BNode::AddU32(BVal(6), BVal(3)),
        BNode::LtU32(BVal(7), BVal(2)),
        BNode::Load { ptr: BVal(0), offsets: BVal(7), mask: BVal(8) },
        BNode::Store { ptr: BVal(1), offsets: BVal(7), val: BVal(9), mask: BVal(8) },
    ]
}

/// Builds the kernel that copies.
pub fn build_memcpy() -> (r: BlockKernel)
    ensures
        r@ == (BlockState {
            nodes: memcpy_nodes(),
            stores: seq![BVal(10)],
            ..BlockState::empty("memcpy"@, WG_SIZE)
        }),
        r@.wf(),
{
    let mut kb = BlockKernel::new("memcpy", WG_SIZE);
    let input_ptr = kb.arg_ptr("input");
    let output_ptr = kb.arg_ptr("output");
    let n = kb.arg_u32("n");
    let tid = kb.thread_id();
    let pid = kb.program_id(0);
    let wg_size = kb.const_u32(WG_SIZE);
    let wg_offset = pid.mul(&mut kb, wg_size);
    let gid = wg_offset.add(&mut kb, tid);
    let mask = gid.lt(&mut kb, n);
    let val = kb.load(input_ptr, gid, mask);
    kb.store(output_ptr, gid, val, mask);
    kb
}

/// The nodes of the kernel that adds one array to another.
pub open spec fn residual_add_nodes() -> Seq<BNode<Seq<char>>> {
    seq![
        BNode::ArgPtr("x"@),
        BNode::ArgPtr("y"@),
        BNode::ArgU32("n"@),
        BNode::ThreadId,
        BNode::ProgramId(0),
        BNode::ConstU32(WG_SIZE),
        BNode::MulU32(BVal(4), BVal(5)),
        BNode::AddU32(BVal(6), BVal(3)),
        BNode::LtU32(BVal(7), BVal(2)),
        BNode::Load { ptr: BVal(0), offsets: BVal(7), mask: BVal(8) },
        BNode::Load { ptr: BVal(1), offsets: BVal(7), mask: BVal(8) },
        BNode::AddF32(BVal(10), BVal(9)),
        BNode::Store { ptr: BVal(1), offsets: BVal(7), val: BVal(11), mask: BVal(8) },
    ]
}

/// Builds the kernel that adds one array to another.
pub fn build_residual_add() -> (r: BlockKernel)
    ensures
        r@ == (BlockState {
            nodes: residual_add_nodes(),
            stores: seq![BVal(12)],
            ..BlockState::empty("residual_add"@, WG_SIZE)
        }),
        r@.wf(),
{
    let mut kb = BlockKernel::new("residual_add", WG_SIZE);
    let x_ptr = kb.arg_ptr("x");
    let y_ptr = kb.arg_ptr("y");
    let n = kb.arg_u32("n");
    let tid = kb.thread_id();
    let pid = kb.program_id(0);
    let wg_size = kb.const_u32(WG_SIZE);
    let wg_offset = pid.mul(&mut kb, wg_size);
    let gid = wg_offset.add(&mut kb, tid);
    let mask = gid.lt(&mut kb, n);
    let x_val = kb.load(x_ptr, gid, mask);
    let y_val = kb.load(y_ptr, gid, mask);
    let result = y_val.add(&mut kb, x_val);
    kb.store(y_ptr, gid, result, mask);
    kb
}

/// The nodes of the kernel that multiplies by a factor.
pub open spec fn scale_nodes() -> Seq<BNode<Seq<char>>> {
    seq![
        BNode::ArgPtr("input"@),
        BNode::ArgPtr("output"@),
        BNode::ArgU32("n"@),
        BNode::ArgF32("scale"@),
        BNode::ThreadId,
        BNode::ProgramId(0),
        BNode::ConstU32(WG_SIZE),
        BNode::MulU32(BVal(5), BVal(6)),
        BNode::AddU32(BVal(7), BVal(4)),
        BNode::LtU32(BVal(8), BVal(2)),
        BNode::Load { ptr: BVal(0), offsets: BVal(8), mask: BVal(9) },
        BNode::MulF32(BVal(10), BVal(3)),
        BNode::Store { ptr: BVal(1), offsets: BVal(8), val: BVal(11), mask: BVal(9) },
    ]
}

/// Builds the kernel that multiplies by a factor.
pub fn build_scale() -> (r: BlockKernel)
    ensures
        r@ == (BlockState {
            nodes: scale_nodes(),
            stores: seq![BVal(12)],
            ..BlockState::empty("scale"@, WG_SIZE)
        }),
        r@.wf(),
{
    let mut kb = BlockKernel::new("scale", WG_SIZE);
    let input_ptr = kb.arg_ptr("input");
    let output_ptr = kb.arg_ptr("output");
    let n = kb.arg_u32("n");
    let scale = kb.arg_f32("scale");
    let tid = kb.thread_id();
    let pid = kb.program_id(0);
    let wg_size = kb.const_u32(WG_SIZE);
    let wg_offset = pid.mul(&mut kb, wg_size);
    let gid = wg_offset.add(&mut kb, tid);
    let mask = gid.lt(&mut kb, n);
    let val = kb.load(input_ptr, gid, mask);
    let result = val.mul(&mut kb, scale);
    kb.store(output_ptr, gid, result, mask);
    kb
}

/// The nodes of the kernel that copies four values per thread.
pub open spec fn memcpy_x4_nodes() -> Seq<BNode<Seq<char>>> {
    seq![
        BNode::ArgPtr("input"@),
        BNode::ArgPtr("output"@),
        BNode::ArgU32("n_4elems"@),
        BNode::ThreadId,
        BNode::ProgramId(0),
        BNode::ConstU32(WG_SIZE),
        BNode::ConstU32(4),
        BNode::ConstU32(1),
        BNode::ConstU32(2),
        BNode::ConstU32(3),
        BNode::MulU32(BVal(4), BVal(5)),
        BNode::AddU32(BVal(10), BVal(3)),
        BNode::LtU32(BVal(11), BVal(2)),
        BNode::MulU32(BVal(11), BVal(6)),
        BNode::AddU32(BVal(13), BVal(7)),
        BNode::AddU32(BVal(13), BVal(8)),
        BNode::AddU32(BVal(13), BVal(9)),
        BNode::Load { ptr: BVal(0), offsets: BVal(13), mask: BVal(12) },
        BNode::Load { ptr: BVal(0), offsets: BVal(14), mask: BVal(12) },
        BNode::Load { ptr: BVal(0), offsets: BVal(15), mask: BVal(12) },
        BNode::Load { ptr: BVal(0), offsets: BVal(16), mask: BVal(12) },
        BNode::Store { ptr: BVal(1), offsets: BVal(13), val: BVal(17), mask: BVal(12) },
        BNode::Store { ptr: BVal(1), offsets: BVal(14), val: BVal(18), mask: BVal(12) },
        BNode::Store { ptr: BVal(1), offsets: BVal(15), val: BVal(19), mask: BVal(12) },
        BNode::Store { ptr: BVal(1), offsets: BVal(16), val: BVal(20), mask: BVal(12) },
    ]
}

/// Builds the kernel that copies four values per thread.
pub fn build_memcpy_x4() -> (r: BlockKernel)
    ensures
        r@ == (BlockState {
            nodes: memcpy_x4_nodes(),
            stores: seq![BVal(21), BVal(22), BVal(23), BVal(24)],
            ..BlockState::empty("memcpy_x4"@, WG_SIZE)
        }),
        r@.wf(),
{
    let mut kb = BlockKernel::new("memcpy_x4", WG_SIZE);
    let input_ptr = kb.arg_ptr("input");
    let output_ptr = kb.arg_ptr("output");
    let n_4elems = kb.arg_u32("n_4elems");
    let tid = kb.thread_id();
    let pid = kb.program_id(0);
    let wg_size = kb.const_u32(WG_SIZE);
    let four = kb.const_u32(4);
    let one = kb.const_u32(1);
    let two = kb.const_u32(2);
    let three = kb.const_u32(3);
    let wg_offset = pid.mul(&mut kb, wg_size);
    let gid = wg_offset.add(&mut kb, tid);
    let mask = gid.lt(&mut kb, n_4elems);
    let base_offset = gid.mul(&mut kb, four);
    let off1 = base_offset.add(&mut kb, one);
    let off2 = base_offset.add(&mut kb, two);
    let off3 = base_offset.add(&mut kb, three);
    let v0 = kb.load(input_ptr, base_offset, mask);
    let v1 = kb.load(input_ptr, off1, mask);
    let v2 = kb.load(input_ptr, off2, mask);
    let v3 = kb.load(input_ptr, off3, mask);
    kb.store(output_ptr, base_offset, v0, mask);
    kb.store(output_ptr, off1, v1, mask);
    kb.store(output_ptr, off2, v2, mask);
    kb.store(output_ptr, off3, v3, mask);
    kb
}

/// The nodes of the kernel that copies four keys and four values per thread.
pub open spec fn memcpy_kv_x4_nodes() -> Seq<BNode<Seq<char>>> {
    seq![
        BNode::ArgPtr("k_src"@),
        BNode::ArgPtr("v_src"@),
        BNode::ArgPtr("k_dst"@),
        BNode::ArgPtr("v_dst"@),
        BNode::ArgU32("n_4elems"@),
        BNode::ThreadId,
        BNode::ProgramId(0),
        BNode::ConstU32(WG_SIZE),
        BNode::ConstU32(4),
        BNode::ConstU32(1),
        BNode::ConstU32(2),
        BNode::ConstU32(3),
        BNode::MulU32(BVal(6), BVal(7)),
        BNode::AddU32(BVal(12), BVal(5)),
        BNode::LtU32(BVal(13), BVal(4)),
        BNode::MulU32(BVal(13), BVal(8)),
        BNode::AddU32(BVal(15), BVal(9)),
        BNode::AddU32(BVal(15), BVal(10)),
        BNode::AddU32(BVal(15), BVal(11)),
        BNode::Load { ptr: BVal(0), offsets: BVal(15), mask: BVal(14) },
        BNode::Load { ptr: BVal(0), offsets: BVal(16), mask: BVal(14) },
        BNode::Load { ptr: BVal(0), offsets: BVal(17), mask: BVal(14) },
        BNode::Load { ptr: BVal(0), offsets: BVal(18), mask: BVal(14) },
        BNode::Load { ptr: BVal(1), offsets: BVal(15), mask: BVal(14) },
        BNode::Load { ptr: BVal(1), offsets: BVal(16), mask: BVal(14) },
        BNode::Load { ptr: BVal(1), offsets: BVal(17), mask: BVal(14) },
        BNode::Load { ptr: BVal(1), offsets: BVal(18), mask: BVal(14) },
        BNode::Store { ptr: BVal(2), offsets: BVal(15), val: BVal(19), mask: BVal(14) },
        BNode::Store { ptr: BVal(2), offsets: BVal(16), val: BVal(20), mask: BVal(14) },
        BNode::Store { ptr: BVal(2), offsets: BVal(17), val: BVal(21), mask: BVal(14) },
        BNode::Store { ptr: BVal(2), offsets: BVal(18), val: BVal(22), mask: BVal(14) },
        BNode::Store { ptr: BVal(3), offsets: BVal(15), val: BVal(23), mask: BVal(14) },
        BNode::Store { ptr: BVal(3), offsets: BVal(16), val: BVal(24), mask: BVal(14) },
        BNode::Store { ptr: BVal(3), offsets: BVal(17), val: BVal(25), mask: BVal(14) },
        BNode::Store { ptr: BVal(3), offsets: BVal(18), val: BVal(26), mask: BVal(14) },
    ]
}

/// Builds the kernel that copies four keys and four values per thread.
pub fn build_memcpy_kv_x4() -> (r: BlockKernel)
    ensures
        r@ == (BlockState {
            nodes: memcpy_kv_x4_nodes(),
            stores: seq![
                BVal(27),
                BVal(28),
                BVal(29),
                BVal(30),
                BVal(31),
                BVal(32),
                BVal(33),
                BVal(34),
            ],
            ..BlockState::empty("memcpy_kv_x4"@, WG_SIZE)
        }),
        r@.wf(),
{
    let mut kb = BlockKernel::new("memcpy_kv_x4", WG_SIZE);
    let k_src = kb.arg_ptr("k_src");
    let v_src = kb.arg_ptr("v_src");
    let k_dst = kb.arg_ptr("k_dst");
    let v_dst = kb.arg_ptr("v_dst");
    let n_4elems = kb.arg_u32("n_4elems");
    let tid = kb.thread_id();
    let pid = kb.program_id(0);
    let wg_size = kb.const_u32(WG_SIZE);
    let four = kb.const_u32(4);
    let one = kb.const_u32(1);
    let two = kb.const_u32(2);
    let three = kb.const_u32(3);
    let wg_offset = pid.mul(&mut kb, wg_size);
    let gid = wg_offset.add(&mut kb, tid);
    let mask = gid.lt(&mut kb, n_4elems);
    let base = gid.mul(&mut kb, four);
    let off1 = base.add(&mut kb, one);
    let off2 = base.add(&mut kb, two);
    let off3 = base.add(&mut kb, three);
    let k0 = kb.load(k_src, base, mask);
    let k1 = kb.load(k_src, off1, mask);
    let k2 = kb.load(k_src, off2, mask);
    let k3 = kb.load(k_src, off3, mask);
    let v0 = kb.load(v_src, base, mask);
    let v1 = kb.load(v_src, off1, mask);
    let v2 = kb.load(v_src, off2, mask);
    let v3 = kb.load(v_src, off3, mask);
    kb.store(k_dst, base, k0, mask);
    kb.store(k_dst, off1, k1, mask);
    kb.store(k_dst, off2, k2, mask);
    kb.store(k_dst, off3, k3, mask);
    kb.store(v_dst, base, v0, mask);
    kb.store(v_dst, off1, v1, mask);
    kb.store(v_dst, off2, v2, mask);
    kb.store(v_dst, off3, v3, mask);
    kb
}

/// The nodes of the kernel that stores floats as bf16.
pub open spec fn bf16_store_test_nodes() -> Seq<BNode<Seq<char>>> {
    seq![
        BNode::ArgPtr("src"@),
        BNode::ArgPtr("dst"@),
        BNode::ArgU32("n"@),
        BNode::ThreadId,
        BNode::ProgramId(0),
        BNode::ConstU32(WG_SIZE),
        BNode::MulU32(BVal(4), BVal(5)),
        BNode::AddU32(BVal(6), BVal(3)),
        BNode::LtU32(BVal(7), BVal(2)),
        BNode::Load { ptr: BVal(0), offsets: BVal(7), mask: BVal(8) },
        BNode::StoreBf16 { ptr: BVal(1), offsets: BVal(7), val: BVal(9), mask: BVal(8) },
    ]
}

/// Builds the kernel that stores floats as bf16.
pub fn build_bf16_store_test() -> (r: BlockKernel)
    ensures
        r@ == (BlockState {
            nodes: bf16_store_test_nodes(),
            stores: seq![BVal(10)],
            ..BlockState::empty("bf16_store_test"@, WG_SIZE)
        }),
        r@.wf(),
{
    let mut kb = BlockKernel::new("bf16_store_test", WG_SIZE);
    let src = kb.arg_ptr("src");
    let dst = kb.arg_ptr("dst");
    let n = kb.arg_u32("n");
    let tid = kb.thread_id();
    let pid = kb.program_id(0);
    let wg_size = kb.const_u32(WG_SIZE);
    let offset = pid.mul(&mut kb, wg_size).add(&mut kb, tid);
    let in_bounds = offset.lt(&mut kb, n);
    let val = kb.load(src, offset, in_bounds);
    kb.store_bf16(dst, offset, val, in_bounds);
    kb
}

/// The nodes of the kernel that stores the upper half of each float in a word.
pub open spec fn f32_to_bf16_b32_nodes() -> Seq<BNode<Seq<char>>> {
    seq![
        BNode::ArgPtr("src"@),
        BNode::ArgPtr("dst"@),
        BNode::ArgU32("n"@),
        BNode::ThreadId,
        BNode::ProgramId(0),
        BNode::ConstU32(WG_SIZE),
        BNode::MulU32(BVal(4), BVal(5)),
        BNode::AddU32(BVal(6), BVal(3)),
        BNode::LtU32(BVal(7), BVal(2)),
        BNode::Load { ptr: BVal(0), offsets: BVal(7), mask: BVal(8) },
        BNode::ShrConstU32(BVal(9), 16),
        BNode::Store { ptr: BVal(1), offsets: BVal(7), val: BVal(10), mask: BVal(8) },
    ]
}

/// Builds the kernel that stores the upper half of each float in a word.
pub fn build_f32_to_bf16_b32() -> (r: BlockKernel)
    ensures
        r@ == (BlockState {
            nodes: f32_to_bf16_b32_nodes(),
            stores: seq![BVal(11)],
            ..BlockState::empty("f32_to_bf16_b32"@, WG_SIZE)
        }),
        r@.wf(),
{
    let mut kb = BlockKernel::new("f32_to_bf16_b32", WG_SIZE);
    let src = kb.arg_ptr("src");
    let dst = kb.arg_ptr("dst");
    let n = kb.arg_u32("n");
    let tid = kb.thread_id();
    let pid = kb.program_id(0);
    let wg_size = kb.const_u32(WG_SIZE);
    let offset = pid.mul(&mut kb, wg_size).add(&mut kb, tid);
    let in_bounds = offset.lt(&mut kb, n);
    let val = kb.load(src, offset, in_bounds);
    let bf16_val = val.shr(&mut kb, 16);
    kb.store_word(dst, offset, bf16_val, in_bounds);
    kb
}

/// The nodes in front of the copies of the kernel that copies sixteen keys and sixteen values
/// per thread: arguments, the thread's first place, sixteen places and their masks.
pub open spec fn kv_x16_head() -> Seq<BNode<Seq<char>>> {
    seq![
        BNode::ArgPtr("k_src"@),
        BNode::ArgPtr("v_src"@),
        BNode::ArgPtr("k_dst"@),
        BNode::ArgPtr("v_dst"@),
        BNode::ArgU32("n_elems"@),
        BNode::ThreadId,
        BNode::ProgramId(0),
        BNode::ConstU32(WG_SIZE),
        BNode::ConstU32(16),
    ] + Seq::new(16, |i: int| BNode::ConstU32(i as u32)) + seq![
        BNode::MulU32(BVal(6), BVal(7)),
        BNode::AddU32(BVal(25), BVal(5)),
        BNode::MulU32(BVal(26), BVal(8)),
    ] + Seq::new(16, |i: int| BNode::AddU32(BVal(27), BVal((9 + i) as usize))) + Seq::new(
        16,
        |i: int| BNode::LtU32(BVal((28 + i) as usize), BVal(4)),
    )
}

/// Sixteen loads from an array.
pub open spec fn kv_loads(ptr: int) -> Seq<BNode<Seq<char>>> {
    Seq::new(
        16,
        |i: int|
            BNode::Load {
                ptr: BVal(ptr as usize),
                offsets: BVal((28 + i) as usize),
                mask: BVal((44 + i) as usize),
            },
    )
}

/// Sixteen stores to an array, of the values from `first` on.
pub open spec fn kv_stores(ptr: int, first: int) -> Seq<BNode<Seq<char>>> {
    Seq::new(
        16,
        |i: int|
            BNode::Store {
                ptr: BVal(ptr as usize),
                offsets: BVal((28 + i) as usize),
                val: BVal((first + i) as usize),
                mask: BVal((44 + i) as usize),
            },
    )
}

/// Whether the values that the copies need are what they should be.
pub open spec fn kv_ready(s: BlockState) -> bool {
    &&& s.typed(BVal(0), BType::Ptr)
    &&& s.typed(BVal(1), BType::Ptr)
    &&& s.typed(BVal(2), BType::Ptr)
    &&& s.typed(BVal(3), BType::Ptr)
    &&& forall|i: usize| 28 <= i < 44 ==> #[trigger] s.typed(BVal(i), BType::U32)
    &&& forall|i: usize| 44 <= i < 60 ==> #[trigger] s.typed(BVal(i), BType::Mask)
}

/// Appends sixteen loads from an array.
fn load_sixteen(kb: &mut BlockKernel, ptr: usize)
    requires
        kv_ready(old(kb)@),
        ptr <= 1,
    ensures
        final(kb)@ == (BlockState { nodes: old(kb)@.nodes + kv_loads(ptr as int), ..old(kb)@ }),
        kv_ready(final(kb)@),
{
    let ghost before = kb@;
    let mut i: usize = 0;
    assert(kb@.nodes =~= before.nodes + kv_loads(ptr as int).take(0));
    while i < 16
        invariant
            i <= 16,
            ptr <= 1,
            kv_ready(kb@),
            kb@ == (BlockState {
                nodes: before.nodes + kv_loads(ptr as int).take(i as int),
                ..before
            }),
        decreases 16 - i,
    {
        let ghost s = kb@;
        assert(s.typed(BVal((28 + i) as usize), BType::U32));
        assert(s.typed(BVal((44 + i) as usize), BType::Mask));
        let _ = kb.load(BVal(ptr), BVal(28 + i), BVal(44 + i));
        proof {
            let all = kv_loads(ptr as int);
            assert(all.take(i + 1) =~= all.take(i as int).push(all[i as int]));
            assert(kb@.nodes =~= before.nodes + all.take(i + 1));
            assert forall|j: usize| 28 <= j < 44 implies #[trigger] kb@.typed(
                BVal(j),
                BType::U32,
            ) by {
                assert(s.typed(BVal(j), BType::U32));
            }
            assert forall|j: usize| 44 <= j < 60 implies #[trigger] kb@.typed(
                BVal(j),
                BType::Mask,
            ) by {
                assert(s.typed(BVal(j), BType::Mask));
            }
        }
        i = i + 1;
    }
    assert(kv_loads(ptr as int).take(16) =~= kv_loads(ptr as int));
}

/// Appends sixteen stores to an array, of the values from `first` on.
fn store_sixteen(kb: &mut BlockKernel, ptr: usize, first: usize)
    requires
        kv_ready(old(kb)@),
        ptr == 2 || ptr == 3,
        first <= 100,
        forall|i: usize|
            first <= i < first + 16 ==> #[trigger] old(kb)@.typed(BVal(i), BType::F32),
    ensures
        final(kb)@ == (BlockState {
            nodes: old(kb)@.nodes + kv_stores(ptr as int, first as int),
            stores: old(kb)@.stores + Seq::new(
                16,
                |i: int| BVal((old(kb)@.nodes.len() + i) as usize),
            ),
            ..old(kb)@
        }),
        kv_ready(final(kb)@),
{
    let ghost before = kb@;
    let ghost places = Seq::new(16, |i: int| BVal((before.nodes.len() + i) as usize));
    let mut i: usize = 0;
    assert(kb@.nodes =~= before.nodes + kv_stores(ptr as int, first as int).take(0));
    assert(kb@.stores =~= before.stores + places.take(0));
    while i < 16
        invariant
            i <= 16,
            ptr == 2 || ptr == 3,
            first <= 100,
            kv_ready(kb@),
            places == Seq::new(16, |i: int| BVal((before.nodes.len() + i) as usize)),
            forall|j: usize|
                first <= j < first + 16 ==> #[trigger] kb@.typed(BVal(j), BType::F32),
            kb@ == (BlockState {
                nodes: before.nodes + kv_stores(ptr as int, first as int).take(i as int),
                stores: before.stores + places.take(i as int),
                ..before
            }),
        decreases 16 - i,
    {
        let ghost s = kb@;
        assert(s.typed(BVal((28 + i) as usize), BType::U32));
        assert(s.typed(BVal((44 + i) as usize), BType::Mask));
        assert(s.typed(BVal((first + i) as usize), BType::F32));
        kb.store(BVal(ptr), BVal(28 + i), BVal(first + i), BVal(44 + i));
        proof {
            let all = kv_stores(ptr as int, first as int);
            assert(all.take(i + 1) =~= all.take(i as int).push(all[i as int]));
            assert(kb@.nodes =~= before.nodes + all.take(i + 1));
            assert(places.take(i + 1) =~= places.take(i as int).push(places[i as int]));
            assert(kb@.stores =~= before.stores + places.take(i + 1));
            assert forall|j: usize| 28 <= j < 44 implies #[trigger] kb@.typed(
                BVal(j),
                BType::U32,
            ) by {
                assert(s.typed(BVal(j), BType::U32));
            }
            assert forall|j: usize| 44 <= j < 60 implies #[trigger] kb@.typed(
                BVal(j),
                BType::Mask,
            ) by {
                assert(s.typed(BVal(j), BType::Mask));
            }
            assert forall|j: usize| first <= j < first + 16 implies #[trigger] kb@.typed(
                BVal(j),
                BType::F32,
            ) by {
                assert(s.typed(BVal(j), BType::F32));
            }
        }
        i = i + 1;
    }
    assert(kv_stores(ptr as int, first as int).take(16) =~= kv_stores(ptr as int, first as int));
    assert(places.take(16) =~= places);
}

/// Appends the nodes in front of the copies.
fn kv_head(kb: &mut BlockKernel)
    requires
        old(kb)@.nodes.len() == 0,
    ensures
        final(kb)@ == (BlockState { nodes: kv_x16_head(), ..old(kb)@ }),
        kv_ready(final(kb)@),
{
    let ghost before = kb@;
    let _ = kb.arg_ptr("k_src");
    let _ = kb.arg_ptr("v_src");
    let _ = kb.arg_ptr("k_dst");
    let _ = kb.arg_ptr("v_dst");
    let n_elems = kb.arg_u32("n_elems");
    let tid = kb.thread_id();
    let pid = kb.program_id(0);
    let wg_size = kb.const_u32(WG_SIZE);
    let sixteen = kb.const_u32(16);
    let ghost first = kb@.nodes;
    let mut i: u32 = 0;
    while i < 16
        invariant
            i <= 16,
            first.len() == 9,
            kb@ == (BlockState {
                nodes: first + Seq::new(i as nat, |j: int| BNode::ConstU32(j as u32)),
                ..before
            }),
        decreases 16 - i,
    {
        let ghost s = kb@.nodes;
        let _ = kb.const_u32(i);
        assert(kb@.nodes =~= first + Seq::new((i + 1) as nat, |j: int| BNode::ConstU32(j as u32)));
        i = i + 1;
    }
    proof {
        assert(kb@.nodes[6] == first[6]);
    }
    let wg_offset = pid.mul(kb, wg_size);
    let thread_idx = wg_offset.add(kb, tid);
    let base = thread_idx.mul(kb, sixteen);
    let ghost second = kb@.nodes;
    let mut j: usize = 0;
    while j < 16
        invariant
            j <= 16,
            base == BVal(27),
            second.len() == 28,
            node_type(second[27]) == BType::U32,
            kb@ == (BlockState {
                nodes: second + Seq::new(
                    j as nat,
                    |x: int| BNode::AddU32(BVal(27), BVal((9 + x) as usize)),
                ),
                ..before
            }),
        decreases 16 - j,
    {
        assert(kb@.nodes[27] == second[27]);
        let _ = base.add(kb, BVal(9 + j));
        assert(kb@.nodes =~= second + Seq::new(
            (j + 1) as nat,
            |x: int| BNode::AddU32(BVal(27), BVal((9 + x) as usize)),
        ));
        j = j + 1;
    }
    let ghost third = kb@.nodes;
    let mut m: usize = 0;
    while m < 16
        invariant
            m <= 16,
            n_elems == BVal(4),
            third.len() == 44,
            kb@ == (BlockState {
                nodes: third + Seq::new(
                    m as nat,
                    |x: int| BNode::LtU32(BVal((28 + x) as usize), BVal(4)),
                ),
                ..before
            }),
        decreases 16 - m,
    {
        let _ = BVal(28 + m).lt(kb, n_elems);
        assert(kb@.nodes =~= third + Seq::new(
            (m + 1) as nat,
            |x: int| BNode::LtU32(BVal((28 + x) as usize), BVal(4)),
        ));
        m = m + 1;
    }
    assert(kb@.nodes =~= kv_x16_head());
    proof {
        let s = kb@;
        assert(s.nodes[0] == first[0]);
        assert(s.nodes[1] == first[1]);
        assert(s.nodes[2] == first[2]);
        assert(s.nodes[3] == first[3]);
        assert forall|x: usize| 28 <= x < 44 implies #[trigger] s.typed(
                BVal(x),
                BType::U32,
            ) by {
            assert(s.nodes[x as int] == third[x as int]);
            assert(third[x as int]
                == BNode::<Seq<char>>::AddU32(BVal(27), BVal((x - 19) as usize)));
        }
        assert forall|x: usize| 44 <= x < 60 implies #[trigger] s.typed(
                BVal(x),
                BType::Mask,
            ) by {
            assert(s.nodes[x as int]
                == BNode::<Seq<char>>::LtU32(BVal((x - 16) as usize), BVal(4)));
        }
    }
}

/// The nodes that store: the last 32.
pub open spec fn kv_x16_stores() -> Seq<BVal> {
    Seq::new(32, |i: int| BVal((92 + i) as usize))
}

/// Builds the kernel that copies sixteen keys and sixteen values per thread.
pub fn build_memcpy_kv_x16() -> (r: BlockKernel)
    ensures
        r@ == (BlockState {
            nodes: kv_x16_head() + kv_loads(0) + kv_loads(1) + kv_stores(2, 60) + kv_stores(3, 76),
            stores: kv_x16_stores(),
            ..BlockState::empty("memcpy_kv_x16"@, WG_SIZE)
        }),
        r@.wf(),
{
    let mut kb = BlockKernel::new("memcpy_kv_x16", WG_SIZE);
    kv_head(&mut kb);
    load_sixteen(&mut kb, 0);
    let ghost a = kb@;
    load_sixteen(&mut kb, 1);
    proof {
        let s = kb@;
        assert forall|i: usize| 60 <= i < 76 implies #[trigger] s.typed(
                BVal(i),
                BType::F32,
            ) by {
            assert(s.nodes[i as int] == a.nodes[i as int]);
            assert(a.nodes[i as int] == kv_loads(0)[i - 60]);
        }
        assert forall|i: usize| 76 <= i < 92 implies #[trigger] s.typed(
                BVal(i),
                BType::F32,
            ) by {
            assert(s.nodes[i as int] == kv_loads(1)[i - 76]);
        }
    }
    let ghost b = kb@;
    store_sixteen(&mut kb, 2, 60);
    let ghost c = kb@;
    proof {
        assert forall|i: usize| 76 <= i < 92 implies #[trigger] c.typed(
                BVal(i),
                BType::F32,
            ) by {
            assert(b.typed(BVal(i), BType::F32));
            assert(c.nodes[i as int] == b.nodes[i as int]);
        }
    }
    store_sixteen(&mut kb, 3, 76);
    assert(kb@.stores =~= kv_x16_stores());
    kb
}

/// The nodes in front of the columns of a conversion to bf16.
pub open spec fn convert_head(last: Seq<char>) -> Seq<BNode<Seq<char>>> {
    seq![
        BNode::ArgPtr("src"@),
        BNode::ArgPtr("dst"@),
        BNode::ArgU32("real_cols"@),
        BNode::ArgU32(last),
        BNode::ThreadId,
        BNode::ProgramId(0),
        BNode::ConstU32(WG_SIZE),
    ]
}

/// The column that a thread converts in turn `i`.
pub open spec fn convert_col(i: nat) -> BVal {
    if i == 0 {
        BVal(4)
    } else {
        BVal((8 * i + 6) as usize)
    }
}

/// The nodes of turn `i`: convert the value of a column, at its place or at that of the
/// transposed matrix, and go on to the column 256 further.
pub open spec fn convert_nodes(i: nat, transposed: bool) -> Seq<BNode<Seq<char>>> {
    let at = |j: int| BVal((7 + 8 * i + j) as usize);
    let col = convert_col(i);
    let (line, within) = if transposed {
        (col, BVal(5))
    } else {
        (BVal(5), col)
    };
    seq![
        BNode::LtU32(col, BVal(2)),
        BNode::MulU32(BVal(5), BVal(2)),
        BNode::AddU32(at(1), col),
        BNode::MulU32(line, BVal(3)),
        BNode::AddU32(at(3), within),
        BNode::Load { ptr: BVal(0), offsets: at(2), mask: at(0) },
        BNode::StoreBf16 { ptr: BVal(1), offsets: at(4), val: at(5), mask: at(0) },
        BNode::AddU32(col, BVal(6)),
    ]
}

/// The nodes of the first `n` turns.
pub open spec fn turns_nodes(n: nat, transposed: bool) -> Seq<BNode<Seq<char>>>
    decreases n,
{
    if n == 0 {
        Seq::empty()
    } else {
        turns_nodes((n - 1) as nat, transposed) + convert_nodes((n - 1) as nat, transposed)
    }
}

/// The nodes that store in the first `n` turns.
pub open spec fn turns_stores(n: nat) -> Seq<BVal> {
    Seq::new(n, |i: int| BVal((13 + 8 * i) as usize))
}

/// Each turn has eight nodes.
proof fn lemma_turns_len(n: nat, transposed: bool)
    ensures
        turns_nodes(n, transposed).len() == 8 * n,
    decreases n,
{
    if n > 0 {
        lemma_turns_len((n - 1) as nat, transposed);
    }
}

/// The kernel after `n` turns.
pub open spec fn convert_state(
    name: Seq<char>,
    last: Seq<char>,
    n: nat,
    transposed: bool,
) -> BlockState {
    BlockState {
        nodes: convert_head(last) + turns_nodes(n, transposed),
        stores: turns_stores(n),
        ..BlockState::empty(name, WG_SIZE)
    }
}

/// Appends one turn.
fn convert_turn(kb: &mut BlockKernel, i: u32, col: BVal, transposed: bool) -> (r: BVal)
    requires
        i < 16,
        old(kb)@.nodes.len() == 7 + 8 * i,
        old(kb)@.typed(BVal(0), BType::Ptr),
        old(kb)@.typed(BVal(1), BType::Ptr),
        old(kb)@.typed(BVal(5), BType::U32),
        col == convert_col(i as nat),
        old(kb)@.typed(col, BType::U32),
    ensures
        final(kb)@.nodes == old(kb)@.nodes + convert_nodes(i as nat, transposed),
        final(kb)@ == (BlockState {
            nodes: final(kb)@.nodes,
            stores: old(kb)@.stores.push(BVal((13 + 8 * i) as usize)),
            ..old(kb)@
        }),
        r == convert_col((i + 1) as nat),
        final(kb)@.typed(r, BType::U32),
{
    let ghost before = kb@;
    let row = BVal(5);
    let in_bounds = col.lt(kb, BVal(2));
    let src_off = row.mul(kb, BVal(2)).add(kb, col);
    let (line, within) = if transposed {
        (col, row)
    } else {
        (row, col)
    };
    let dst_off = line.mul(kb, BVal(3)).add(kb, within);
    let val = kb.load(BVal(0), src_off, in_bounds);
    kb.store_bf16(BVal(1), dst_off, val, in_bounds);
    let next = col.add(kb, BVal(6));
    proof {
        let more = convert_nodes(i as nat, transposed);
        let all = before.nodes + more;
        assert(kb@.nodes.len() == all.len());
        assert forall|j: int| 0 <= j < all.len() implies kb@.nodes[j] == #[trigger] all[j] by {
            if j >= before.nodes.len() {
                assert(all[j] == more[j - before.nodes.len()]);
            }
        }
        assert(kb@.nodes =~= all);
    }
    next
}

/// Builds a conversion to bf16.
fn build_conversion(name: &str, last: &str, turns: u32, transposed: bool) -> (r: BlockKernel)
    requires
        turns <= 16,
    ensures
        r@ == convert_state(name@, last@, turns as nat, transposed),
        r@.wf(),
{
    let mut kb = BlockKernel::new(name, WG_SIZE);
    let _ = kb.arg_ptr("src");
    let _ = kb.arg_ptr("dst");
    let _ = kb.arg_u32("real_cols");
    let _ = kb.arg_u32(last);
    let tid = kb.thread_id();
    let _ = kb.program_id(0);
    let _ = kb.const_u32(WG_SIZE);
    let mut col = tid;
    assert(kb@.nodes =~= convert_head(last@) + turns_nodes(0, transposed));
    assert(kb@.stores =~= turns_stores(0));
    let mut i: u32 = 0;
    while i < turns
        invariant
            i <= turns,
            turns <= 16,
            kb@ == convert_state(name@, last@, i as nat, transposed),
            col == convert_col(i as nat),
            kb@.typed(col, BType::U32),
        decreases turns - i,
    {
        proof {
            lemma_turns_len(i as nat, transposed);
            assert(kb@.nodes[0] == convert_head(last@)[0]);
            assert(kb@.nodes[1] == convert_head(last@)[1]);
            assert(kb@.nodes[5] == convert_head(last@)[5]);
        }
        col = convert_turn(&mut kb, i, col, transposed);
        proof {
            assert(kb@.nodes =~= convert_head(last@) + turns_nodes((i + 1) as nat, transposed));
            assert(kb@.stores =~= turns_stores((i + 1) as nat));
        }
        i = i + 1;
    }
    kb
}

/// Builds the kernel that converts up to 4096 floats per row to bf16, in rows of another
/// length.
pub fn build_f32_to_bf16_padded() -> (r: BlockKernel)
    ensures
        r@ == convert_state("f32_to_bf16_pad"@, "pad_cols"@, 16, false),
        r@.wf(),
{
    build_conversion("f32_to_bf16_pad", "pad_cols", 16, false)
}

/// Builds the kernel that converts up to 2048 floats per row to bf16, as columns of another
/// length.
pub fn build_f32_to_bf16_transpose_padded() -> (r: BlockKernel)
    ensures
        r@ == convert_state("f32_to_bf16_tp"@, "pad_rows"@, 8, true),
        r@.wf(),
{
    build_conversion("f32_to_bf16_tp", "pad_rows", 8, true)
}

/// The threads for one workgroup per row.
pub fn f32_to_bf16_grid(padded_rows: u32) -> (r: u32)
    requires
        padded_rows * WG_SIZE <= u32::MAX,
    ensures
        r == padded_rows * WG_SIZE,
{
    padded_rows * WG_SIZE
}

/// The threads for one per element, in whole workgroups.
pub fn elementwise_grid(n: u32) -> (r: u32)
    requires
        n + WG_SIZE - 1 <= u32::MAX,
    ensures
        r == ceil_div(n as nat, WG_SIZE as nat) * WG_SIZE,
{
    ((n + (WG_SIZE - 1)) / WG_SIZE) * WG_SIZE
}

/// The threads for one per sixteen elements, in whole workgroups.
pub fn elementwise_grid_x16(n_elems: u32) -> (r: u32)
    requires
        n_elems + WG_SIZE * 16 - 1 <= u32::MAX,
    ensures
        r == ceil_div(n_elems as nat, (WG_SIZE * 16) as nat) * WG_SIZE,
{
    let elems_per_wg: u32 = WG_SIZE * 16;
    let last: u32 = n_elems + (elems_per_wg - 1);
    assert(last as nat / elems_per_wg as nat * 256 <= u32::MAX) by (nonlinear_arith)
        requires
            elems_per_wg == 4096,
            last <= u32::MAX,
    ;
    (last / elems_per_wg) * WG_SIZE
}

/// The threads for one per four elements, in whole workgroups.
pub fn elementwise_grid_x4(n_elems: u32) -> (r: u32)
    requires
        n_elems + 3 <= u32::MAX,
    ensures
        r == ceil_div(ceil_div(n_elems as nat, 4), WG_SIZE as nat) * WG_SIZE,
{
    let n_4elems: u32 = (n_elems + 3) / 4;
    ((n_4elems + (WG_SIZE - 1)) / WG_SIZE) * WG_SIZE
}

/// There is a thread for every element, for every four, for every sixteen.
pub proof fn threads_cover_elements(n: nat)
    ensures
        n <= ceil_div(n, WG_SIZE as nat) * WG_SIZE,
        n <= ceil_div(ceil_div(n, 4), WG_SIZE as nat) * WG_SIZE * 4,
        n <= ceil_div(n, (WG_SIZE * 16) as nat) * WG_SIZE * 16,
{
    tiles_cover(n, WG_SIZE as nat);
    tiles_cover(n, 4);
    tiles_cover(ceil_div(n, 4), WG_SIZE as nat);
    tiles_cover(n, (WG_SIZE * 16) as nat);
}

// ── Translation ──
/// Each kernel that works element by element translates to a function.
pub proof fn elementwise_kernels_translate(k: BlockState)
    requires
        k.nodes == memcpy_nodes()
            || k.nodes == residual_add_nodes()
            || k.nodes == scale_nodes()
            || k.nodes == memcpy_x4_nodes()
            || k.nodes == memcpy_kv_x4_nodes()
            || k.nodes == bf16_store_test_nodes()
            || k.nodes == f32_to_bf16_b32_nodes(),
    ensures
        ranges_ascend(k.nodes),
        function_of(k) is Ok,
{
    if k.nodes == memcpy_nodes() {
        lemma_memcpy_fit(k);
    } else if k.nodes == residual_add_nodes() {
        lemma_residual_add_fit(k);
    } else if k.nodes == scale_nodes() {
        lemma_scale_fit(k);
    } else if k.nodes == memcpy_x4_nodes() {
        lemma_memcpy_x4_fit(k);
    } else if k.nodes == memcpy_kv_x4_nodes() {
        lemma_memcpy_kv_x4_fit(k);
    } else if k.nodes == bf16_store_test_nodes() {
        lemma_bf16_store_test_fit(k);
    } else if k.nodes == f32_to_bf16_b32_nodes() {
        lemma_f32_to_bf16_b32_fit(k);
    }
    fitting_kernels_can_be_translated(k);
}

proof fn lemma_memcpy_fit(k: BlockState)
    requires
        k.nodes == memcpy_nodes(),
    ensures
        all_fit(k, k.nodes.len()),
{
    reveal_with_fuel(all_fit, 12);
    assert(all_fit(k, 11));
}

proof fn lemma_residual_add_fit(k: BlockState)
    requires
        k.nodes == residual_add_nodes(),
    ensures
        all_fit(k, k.nodes.len()),
{
    reveal_with_fuel(all_fit, 14);
    assert(all_fit(k, 13));
}

proof fn lemma_scale_fit(k: BlockState)
    requires
        k.nodes == scale_nodes(),
    ensures
        all_fit(k, k.nodes.len()),
{
    reveal_with_fuel(all_fit, 14);
    assert(all_fit(k, 13));
}

proof fn lemma_memcpy_x4_fit(k: BlockState)
    requires
        k.nodes == memcpy_x4_nodes(),
    ensures
        all_fit(k, k.nodes.len()),
{
    reveal_with_fuel(all_fit, 26);
    assert(all_fit(k, 25));
}

#[verifier::rlimit(60)]
#[verifier::spinoff_prover]
proof fn lemma_memcpy_kv_x4_fit(k: BlockState)
    requires
        k.nodes == memcpy_kv_x4_nodes(),
    ensures
        all_fit(k, k.nodes.len()),
{
    reveal_with_fuel(all_fit, 36);
    assert(all_fit(k, 35));
}

proof fn lemma_bf16_store_test_fit(k: BlockState)
    requires
        k.nodes == bf16_store_test_nodes(),
    ensures
        all_fit(k, k.nodes.len()),
{
    reveal_with_fuel(all_fit, 12);
    assert(all_fit(k, 11));
}

proof fn lemma_f32_to_bf16_b32_fit(k: BlockState)
    requires
        k.nodes == f32_to_bf16_b32_nodes(),
    ensures
        all_fit(k, k.nodes.len()),
{
    reveal_with_fuel(all_fit, 13);
    assert(all_fit(k, 12));
}

proof fn lemma_turns_at(n: nat, transposed: bool, i: nat, j: int)
    requires
        i < n,
        0 <= j < 8,
    ensures
        turns_nodes(n, transposed).len() == 8 * n,
        turns_nodes(n, transposed)[8 * i + j] == convert_nodes(i, transposed)[j],
    decreases n,
{
    lemma_turns_len(n, transposed);
    lemma_turns_len((n - 1) as nat, transposed);
    if i < n - 1 {
        lemma_turns_at((n - 1) as nat, transposed, i, j);
    }
}

proof fn lemma_turn(k: BlockState, last: Seq<char>, n: nat, transposed: bool, i: nat, at: int)
    requires
        k.nodes == convert_head(last) + turns_nodes(n, transposed),
        i < n,
        at == 7 + 8 * i,
    ensures
        k.nodes[at + 0] == convert_nodes(i, transposed)[0],
        k.nodes[at + 1] == convert_nodes(i, transposed)[1],
        k.nodes[at + 2] == convert_nodes(i, transposed)[2],
        k.nodes[at + 3] == convert_nodes(i, transposed)[3],
        k.nodes[at + 4] == convert_nodes(i, transposed)[4],
        k.nodes[at + 5] == convert_nodes(i, transposed)[5],
        k.nodes[at + 6] == convert_nodes(i, transposed)[6],
        k.nodes[at + 7] == convert_nodes(i, transposed)[7],
{
    lemma_turns_at(n, transposed, i, 0);
    lemma_turns_at(n, transposed, i, 1);
    lemma_turns_at(n, transposed, i, 2);
    lemma_turns_at(n, transposed, i, 3);
    lemma_turns_at(n, transposed, i, 4);
    lemma_turns_at(n, transposed, i, 5);
    lemma_turns_at(n, transposed, i, 6);
    lemma_turns_at(n, transposed, i, 7);
}

#[verifier::rlimit(60)]
#[verifier::spinoff_prover]
proof fn lemma_turn_fits(k: BlockState, last: Seq<char>, n: nat, transposed: bool, i: nat, at: int)
    requires
        k.nodes == convert_head(last) + turns_nodes(n, transposed),
        i < n,
        at == 7 + 8 * i,
        7 + 8 * n <= usize::MAX,
    ensures
        node_fits(k, at + 0),
        node_fits(k, at + 1),
        node_fits(k, at + 2),
        node_fits(k, at + 3),
        node_fits(k, at + 4),
        node_fits(k, at + 5),
        node_fits(k, at + 6),
        node_fits(k, at + 7),
{
    lemma_turns_len(n, transposed);
    let s = k.nodes;
    let head = convert_head(last);
    assert(s[0] == head[0] && s[1] == head[1] && s[2] == head[2] && s[3] == head[3]);
    assert(s[4] == head[4] && s[5] == head[5] && s[6] == head[6]);
    lemma_turn(k, last, n, transposed, i, at);
    let own = convert_col(i);
    if i > 0 {
        lemma_turn(k, last, n, transposed, (i - 1) as nat, at - 8);
        assert(s[at - 1] is AddU32);
        assert(own.0 == at - 1);
    }
    assert(own.0 < at && has_value(s[own.0 as int]));
    assert(s[at] == BNode::<Seq<char>>::LtU32(own, BVal(2)));
    assert(node_fits(k, at));
    assert(node_fits(k, at + 1));
    assert(node_fits(k, at + 2));
    assert(node_fits(k, at + 3));
    assert(node_fits(k, at + 4));
}

proof fn lemma_turns_fit(k: BlockState, last: Seq<char>, n: nat, transposed: bool, m: nat)
    requires
        k.nodes == convert_head(last) + turns_nodes(n, transposed),
        m <= n,
        7 + 8 * n <= usize::MAX,
    ensures
        all_fit(k, 7 + 8 * m),
    decreases m,
{
    lemma_turns_len(n, transposed);
    if m == 0 {
        assert forall|j: int|
            0 <= j < 7 implies #[trigger] k.nodes[j] == convert_head(last)[j] by {}
        reveal_with_fuel(all_fit, 8);
    } else {
        let i = (m - 1) as nat;
        let at = 7 + 8 * (i as int);
        lemma_turns_fit(k, last, n, transposed, i);
        lemma_turn(k, last, n, transposed, i, at);
        lemma_turn_fits(k, last, n, transposed, i, at);
        assert forall|j: int| at <= j < at + 8 implies #[trigger] node_fits(k, j) by {
            let x = j - at;
            assert(x == 0 || x == 1 || x == 2 || x == 3 || x == 4 || x == 5 || x == 6 || x == 7);
        }
        assert forall|j: int| at <= j < at + 8 implies !(#[trigger] k.nodes[j] is Arange) by {
            let x = j - at;
            assert(x == 0 || x == 1 || x == 2 || x == 3 || x == 4 || x == 5 || x == 6 || x == 7);
        }
        lemma_more_fit(k, at as nat, (at + 8) as nat);
    }
}

/// A kernel that converts to bf16 translates to a function, however many turns it takes.
pub proof fn conversions_translate(k: BlockState, last: Seq<char>, n: nat, transposed: bool)
    requires
        k.nodes == convert_head(last) + turns_nodes(n, transposed),
        7 + 8 * n <= usize::MAX,
    ensures
        ranges_ascend(k.nodes),
        function_of(k) is Ok,
{
    lemma_turns_len(n, transposed);
    lemma_turns_fit(k, last, n, transposed, n);
    fitting_kernels_can_be_translated(k);
}

/// The kernel that copies sixteen keys and sixteen values per thread translates to a function.
pub proof fn memcpy_kv_x16_translates(k: BlockState)
    requires
        k.nodes == kv_x16_head() + kv_loads(0) + kv_loads(1) + kv_stores(2, 60) + kv_stores(3, 76),
    ensures
        ranges_ascend(k.nodes),
        function_of(k) is Ok,
{
    let s = k.nodes;
    assert(s.len() == 124);
    assert(s[0] is ArgPtr && s[1] is ArgPtr && s[2] is ArgPtr && s[3] is ArgPtr);
    assert(s[4] is ArgU32 && s[5] is ThreadId && s[6] is ProgramId);
    assert(s[7] is ConstU32 && s[8] is ConstU32);
    assert forall|i: int| 9 <= i < 25 implies #[trigger] s[i] is ConstU32 by {}
    assert(s[25] == BNode::<Seq<char>>::MulU32(BVal(6), BVal(7)));
    assert(s[26] == BNode::<Seq<char>>::AddU32(BVal(25), BVal(5)));
    assert(s[27] == BNode::<Seq<char>>::MulU32(BVal(26), BVal(8)));
    assert forall|i: int| 28 <= i < 44 implies #[trigger] s[i] == BNode::<Seq<char>>::AddU32(
        BVal(27),
        BVal((i - 19) as usize),
    ) by {}
    assert forall|i: int| 44 <= i < 60 implies #[trigger] s[i] == BNode::<Seq<char>>::LtU32(
        BVal((i - 16) as usize),
        BVal(4),
    ) by {}
    assert forall|i: int| 60 <= i < 76 implies #[trigger] s[i] == kv_loads(0)[i - 60] by {}
    assert forall|i: int| 76 <= i < 92 implies #[trigger] s[i] == kv_loads(1)[i - 76] by {}
    assert forall|i: int| 92 <= i < 108 implies #[trigger] s[i] == kv_stores(2, 60)[i - 92] by {}
    assert forall|i: int| 108 <= i < 124 implies #[trigger] s[i] == kv_stores(3, 76)[i - 108] by {}
    assert forall|i: int| 0 <= i < 124 implies #[trigger] node_fits(k, i) by {
        assert(i < 9 || 9 <= i < 25 || i == 25 || i == 26 || i == 27 || i >= 28);
    }
    fitting_kernels_translate(k, 124);
}

// ── What the kernels do ──
/// The number of a thread in the whole launch.
pub open spec fn global_thread(l: Launch, t: u32) -> int {
    (l.group)(0) * WG_SIZE + t
}

/// Whether a thread is one of a workgroup of 256 whose number in the launch is a word.
pub open spec fn runs(k: BlockState, l: Launch, t: u32) -> bool {
    &&& k.block_x == WG_SIZE
    &&& t < WG_SIZE
    &&& global_thread(l, t) <= u32::MAX
}

/// What a thread stores if a condition holds.
pub open spec fn stores_if(cond: bool, ptr: int, place: int, word: u32) -> Option<Access> {
    if cond {
        Some(Access { ptr, place, word })
    } else {
        None
    }
}

/// What the kernels begin with: the number of the thread, and whether it has an element. The
/// numbers are those of the nodes.
proof fn lemma_flat_thread(k: BlockState, l: Launch, t: u32, n: int, tid: int, at: int)
    requires
        runs(k, l, t),
        0 <= n < tid,
        k.nodes[0] is ArgPtr,
        k.nodes[1] is ArgPtr,
        k.nodes[n] is ArgU32,
        k.nodes[tid] is ThreadId,
        k.nodes[tid + 1] == BNode::<Seq<char>>::ProgramId(0),
        tid + 2 < at,
        at + 2 <= usize::MAX,
        k.nodes[tid + 2] == BNode::<Seq<char>>::ConstU32(WG_SIZE),
        k.nodes[at] == BNode::<Seq<char>>::MulU32(
            BVal((tid + 1) as usize),
            BVal((tid + 2) as usize),
        ),
        k.nodes[at + 1] == BNode::<Seq<char>>::AddU32(BVal(at as usize), BVal(tid as usize)),
        k.nodes[at + 2] == BNode::<Seq<char>>::LtU32(BVal((at + 1) as usize), BVal(n as usize)),
    ensures
        value(k, l, t, 0) == 0,
        value(k, l, t, 1) == 1,
        value(k, l, t, at + 1) == global_thread(l, t),
        value(k, l, t, at + 2) != 0 <==> global_thread(l, t) < (l.args)(n),
{
    let group = (l.group)(0);
    assert(value(k, l, t, tid) == t);
    assert(value(k, l, t, tid + 1) == group);
    assert(value(k, l, t, tid + 2) == WG_SIZE);
    lemma_product(
        k,
        l,
        t,
        at,
        BVal((tid + 1) as usize),
        BVal((tid + 2) as usize),
        group as int,
        WG_SIZE as int,
    );
    assert(value(k, l, t, at + 1) == global_thread(l, t));
    assert(value(k, l, t, n) == (l.args)(n));
}

/// Copying: thread `i` stores input `i` as output `i`, for each of `n` elements.
pub proof fn memcpy_copies(k: BlockState, l: Launch, t: u32)
    requires
        k.nodes == memcpy_nodes(),
        runs(k, l, t),
    ensures
        ({
            let i = global_thread(l, t);
            stored(k, l, t, 10) == stores_if(i < (l.args)(2), 1, i, (l.words)(0, i))
        }),
{
    lemma_flat_thread(k, l, t, 2, 3, 6);
}

/// Adding: thread `i` stores the sum of `y[i]` and `x[i]` as `y[i]`.
pub proof fn residual_add_adds(k: BlockState, l: Launch, t: u32)
    requires
        k.nodes == residual_add_nodes(),
        runs(k, l, t),
    ensures
        ({
            let i = global_thread(l, t);
            stored(k, l, t, 12) == stores_if(
                i < (l.args)(2),
                1,
                i,
                l.floats.plus((l.words)(1, i), (l.words)(0, i)),
            )
        }),
{
    let i = global_thread(l, t);
    lemma_flat_thread(k, l, t, 2, 3, 6);
    if i < (l.args)(2) {
        assert(value(k, l, t, 9) == (l.words)(0, i));
        assert(value(k, l, t, 10) == (l.words)(1, i));
    }
}

/// Scaling: thread `i` stores input `i` times the factor as output `i`.
pub proof fn scale_scales(k: BlockState, l: Launch, t: u32)
    requires
        k.nodes == scale_nodes(),
        runs(k, l, t),
    ensures
        ({
            let i = global_thread(l, t);
            stored(k, l, t, 12) == stores_if(
                i < (l.args)(2),
                1,
                i,
                l.floats.times((l.words)(0, i), (l.args)(3)),
            )
        }),
{
    let i = global_thread(l, t);
    lemma_flat_thread(k, l, t, 2, 4, 7);
    if i < (l.args)(2) {
        assert(value(k, l, t, 10) == (l.words)(0, i));
        assert(value(k, l, t, 3) == (l.args)(3));
    }
}

/// Copying by fours: thread `i` copies elements `4i` to `4i + 3`.
pub proof fn memcpy_x4_copies(k: BlockState, l: Launch, t: u32)
    requires
        k.nodes == memcpy_x4_nodes(),
        runs(k, l, t),
        4 * global_thread(l, t) + 3 <= u32::MAX,
    ensures
        ({
            let i = global_thread(l, t);
            &&& stored(k, l, t, 21) == stores_if(i < (l.args)(2), 1, 4 * i, (l.words)(0, 4 * i))
            &&& stored(k, l, t, 22) == stores_if(
                i < (l.args)(2),
                1,
                4 * i + 1,
                (l.words)(0, 4 * i + 1),
            )
            &&& stored(k, l, t, 23) == stores_if(
                i < (l.args)(2),
                1,
                4 * i + 2,
                (l.words)(0, 4 * i + 2),
            )
            &&& stored(k, l, t, 24) == stores_if(
                i < (l.args)(2),
                1,
                4 * i + 3,
                (l.words)(0, 4 * i + 3),
            )
        }),
{
    let i = global_thread(l, t);
    let v = |i: int| value(k, l, t, i);
    assert(v(0) == 0 && v(1) == 1 && v(2) == (l.args)(2));
    assert(v(3) == t && v(4) == (l.group)(0) && v(5) == WG_SIZE);
    assert(v(6) == 4 && v(7) == 1 && v(8) == 2 && v(9) == 3);
    lemma_product(k, l, t, 10, BVal(4), BVal(5), (l.group)(0) as int, WG_SIZE as int);
    assert(v(11) == i);
    assert(v(12) != 0 <==> i < (l.args)(2));
    lemma_product(k, l, t, 13, BVal(11), BVal(6), i, 4);
    assert(v(13) == 4 * i);
    assert(v(14) == 4 * i + 1 && v(15) == 4 * i + 2 && v(16) == 4 * i + 3);
}

/// Copying keys and values by fours: thread `i` copies keys and values `4i` to `4i + 3`.
pub proof fn memcpy_kv_x4_copies(k: BlockState, l: Launch, t: u32)
    requires
        k.nodes == memcpy_kv_x4_nodes(),
        runs(k, l, t),
        4 * global_thread(l, t) + 3 <= u32::MAX,
    ensures
        ({
            let i = global_thread(l, t);
            &&& stored(k, l, t, 27) == stores_if(i < (l.args)(4), 2, 4 * i, (l.words)(0, 4 * i))
            &&& stored(k, l, t, 28) == stores_if(
                i < (l.args)(4),
                2,
                4 * i + 1,
                (l.words)(0, 4 * i + 1),
            )
            &&& stored(k, l, t, 29) == stores_if(
                i < (l.args)(4),
                2,
                4 * i + 2,
                (l.words)(0, 4 * i + 2),
            )
            &&& stored(k, l, t, 30) == stores_if(
                i < (l.args)(4),
                2,
                4 * i + 3,
                (l.words)(0, 4 * i + 3),
            )
            &&& stored(k, l, t, 31) == stores_if(i < (l.args)(4), 3, 4 * i, (l.words)(1, 4 * i))
            &&& stored(k, l, t, 32) == stores_if(
                i < (l.args)(4),
                3,
                4 * i + 1,
                (l.words)(1, 4 * i + 1),
            )
            &&& stored(k, l, t, 33) == stores_if(
                i < (l.args)(4),
                3,
                4 * i + 2,
                (l.words)(1, 4 * i + 2),
            )
            &&& stored(k, l, t, 34) == stores_if(
                i < (l.args)(4),
                3,
                4 * i + 3,
                (l.words)(1, 4 * i + 3),
            )
        }),
{
    let i = global_thread(l, t);
    let v = |i: int| value(k, l, t, i);
    assert(v(0) == 0 && v(1) == 1 && v(2) == 2 && v(3) == 3 && v(4) == (l.args)(4));
    assert(v(5) == t && v(6) == (l.group)(0) && v(7) == WG_SIZE);
    assert(v(8) == 4 && v(9) == 1 && v(10) == 2 && v(11) == 3);
    lemma_product(k, l, t, 12, BVal(6), BVal(7), (l.group)(0) as int, WG_SIZE as int);
    assert(v(13) == i);
    assert(v(14) != 0 <==> i < (l.args)(4));
    lemma_product(k, l, t, 15, BVal(13), BVal(8), i, 4);
    assert(v(15) == 4 * i);
    assert(v(16) == 4 * i + 1 && v(17) == 4 * i + 2 && v(18) == 4 * i + 3);
}

/// Storing as bf16: thread `i` stores the upper half of float `i`.
pub proof fn bf16_store_stores_upper_halves(k: BlockState, l: Launch, t: u32)
    requires
        k.nodes == bf16_store_test_nodes(),
        runs(k, l, t),
    ensures
        ({
            let i = global_thread(l, t);
            stored(k, l, t, 10) == stores_if(
                i < (l.args)(2),
                1,
                i,
                ((l.words)(0, i) / 0x1_0000) as u32,
            )
        }),
{
    lemma_flat_thread(k, l, t, 2, 3, 6);
}

/// Storing as words: thread `i` stores the upper half of float `i` in a word.
pub proof fn f32_to_bf16_b32_stores_upper_halves(k: BlockState, l: Launch, t: u32)
    requires
        k.nodes == f32_to_bf16_b32_nodes(),
        runs(k, l, t),
    ensures
        ({
            let i = global_thread(l, t);
            stored(k, l, t, 11) == stores_if(
                i < (l.args)(2),
                1,
                i,
                ((l.words)(0, i) / 0x1_0000) as u32,
            )
        }),
{
    let x = (l.words)(0, global_thread(l, t));
    lemma_flat_thread(k, l, t, 2, 3, 6);
    if global_thread(l, t) < (l.args)(2) {
        assert(value(k, l, t, 9) == x);
    }
    assert(x >> 16u32 == x / 0x1_0000u32) by (bit_vector);
}

/// No two threads have the same number, and each number belongs to a thread.
pub proof fn one_thread_per_element(l: Launch, m: Launch, t: u32, u: u32, i: nat)
    requires
        t < WG_SIZE,
        u < WG_SIZE,
    ensures
        global_thread(l, t) == global_thread(m, u) ==> (l.group)(0) == (m.group)(0) && t == u,
        global_thread(l, t) == i <==> (l.group)(0) == i / WG_SIZE as nat && t == i % WG_SIZE as nat,
{
}

proof fn lemma_kv_nodes(k: BlockState, j: int)
    requires
        k.nodes == kv_x16_head() + kv_loads(0) + kv_loads(1) + kv_stores(2, 60) + kv_stores(3, 76),
        0 <= j < 16,
    ensures
        k.nodes[9 + j] == BNode::<Seq<char>>::ConstU32(j as u32),
        k.nodes[28 + j] == BNode::<Seq<char>>::AddU32(BVal(27), BVal((9 + j) as usize)),
        k.nodes[44 + j] == BNode::<Seq<char>>::LtU32(BVal((28 + j) as usize), BVal(4)),
        k.nodes[60 + j] == kv_loads(0)[j],
        k.nodes[76 + j] == kv_loads(1)[j],
        k.nodes[92 + j] == kv_stores(2, 60)[j],
        k.nodes[108 + j] == kv_stores(3, 76)[j],
{
}

/// Copying keys and values by sixteens: thread `i` copies keys and values `16i` to `16i + 15`,
/// as far as there are any.
pub proof fn memcpy_kv_x16_copies(k: BlockState, l: Launch, t: u32, j: int)
    requires
        k.nodes == kv_x16_head() + kv_loads(0) + kv_loads(1) + kv_stores(2, 60) + kv_stores(3, 76),
        runs(k, l, t),
        16 * global_thread(l, t) + 15 <= u32::MAX,
        0 <= j < 16,
    ensures
        ({
            let at = 16 * global_thread(l, t) + j;
            &&& stored(k, l, t, 92 + j) == stores_if(at < (l.args)(4), 2, at, (l.words)(0, at))
            &&& stored(k, l, t, 108 + j) == stores_if(at < (l.args)(4), 3, at, (l.words)(1, at))
        }),
{
    let s = k.nodes;
    let i = global_thread(l, t);
    let v = |i: int| value(k, l, t, i);
    lemma_kv_nodes(k, j);
    assert(s[0] is ArgPtr && s[1] is ArgPtr && s[2] is ArgPtr && s[3] is ArgPtr);
    assert(s[4] is ArgU32 && s[5] is ThreadId && s[6] == BNode::<Seq<char>>::ProgramId(0));
    assert(s[7] == BNode::<Seq<char>>::ConstU32(WG_SIZE));
    assert(s[8] == BNode::<Seq<char>>::ConstU32(16));
    assert(s[25] == BNode::<Seq<char>>::MulU32(BVal(6), BVal(7)));
    assert(s[26] == BNode::<Seq<char>>::AddU32(BVal(25), BVal(5)));
    assert(s[27] == BNode::<Seq<char>>::MulU32(BVal(26), BVal(8)));
    assert(v(0) == 0 && v(1) == 1 && v(2) == 2 && v(3) == 3 && v(4) == (l.args)(4));
    assert(v(5) == t && v(6) == (l.group)(0) && v(7) == WG_SIZE && v(8) == 16);
    lemma_product(k, l, t, 25, BVal(6), BVal(7), (l.group)(0) as int, WG_SIZE as int);
    assert(v(26) == i);
    lemma_product(k, l, t, 27, BVal(26), BVal(8), i, 16);
    assert(v(27) == 16 * i);
    assert(v(9 + j) == j);
    assert(v(28 + j) == 16 * i + j);
    assert(v(44 + j) != 0 <==> 16 * i + j < (l.args)(4));
    assert(v(44 + j) != 0 ==> v(60 + j) == (l.words)(0, 16 * i + j));
    assert(v(44 + j) != 0 ==> v(76 + j) == (l.words)(1, 16 * i + j));
}

/// In turn `i` a thread converts the column `256 * i` behind its own.
proof fn lemma_convert_col(
    k: BlockState,
    l: Launch,
    t: u32,
    last: Seq<char>,
    n: nat,
    transposed: bool,
    i: nat,
)
    requires
        k.nodes == convert_head(last) + turns_nodes(n, transposed),
        k.block_x == WG_SIZE,
        t < WG_SIZE,
        i < n,
        7 + 8 * n <= usize::MAX,
        t + WG_SIZE * i <= u32::MAX,
    ensures
        value(k, l, t, convert_col(i).0 as int) == t + WG_SIZE * i,
    decreases i,
{
    lemma_turns_len(n, transposed);
    assert(k.nodes[4] == convert_head(last)[4] && k.nodes[6] == convert_head(last)[6]);
    assert(value(k, l, t, 4) == t && value(k, l, t, 6) == WG_SIZE);
    if i > 0 {
        let before = (i - 1) as nat;
        lemma_convert_col(k, l, t, last, n, transposed, before);
        lemma_turn(k, last, n, transposed, before, 7 + 8 * (before as int));
        assert(convert_col(i).0 == 7 + 8 * before + 7);
        assert(convert_col(before).0 < 7 + 8 * before + 7);
    }
}

/// Converting: in turn `i` a thread stores the upper half of the float in its row and in the
/// column `256 * i` behind its own, in a row of another length or, transposed, in a column.
pub proof fn conversions_convert(
    k: BlockState,
    l: Launch,
    t: u32,
    last: Seq<char>,
    n: nat,
    transposed: bool,
    i: nat,
)
    requires
        k.nodes == convert_head(last) + turns_nodes(n, transposed),
        k.block_x == WG_SIZE,
        t < WG_SIZE,
        i < n,
        7 + 8 * n <= usize::MAX,
        t + WG_SIZE * (i + 1) <= u32::MAX,
        (l.group)(0) * (l.args)(2) + t + WG_SIZE * i <= u32::MAX,
        transposed ==> (t + WG_SIZE * i) * (l.args)(3) + (l.group)(0) <= u32::MAX,
        !transposed ==> (l.group)(0) * (l.args)(3) + t + WG_SIZE * i <= u32::MAX,
    ensures
        ({
            let (row, real_cols, pad) = ((l.group)(0), (l.args)(2), (l.args)(3));
            let col = t + WG_SIZE * i;
            stored(k, l, t, 13 + 8 * (i as int)) == stores_if(
                col < real_cols,
                1,
                if transposed {
                    col * pad + row
                } else {
                    row * pad + col
                },
                ((l.words)(0, row * real_cols + col) / 0x1_0000) as u32,
            )
        }),
{
    let (row, real_cols, pad) = ((l.group)(0), (l.args)(2), (l.args)(3));
    let col = t + WG_SIZE * i;
    let at = 7 + 8 * (i as int);
    let v = |i: int| value(k, l, t, i);
    lemma_turns_len(n, transposed);
    lemma_turn(k, last, n, transposed, i, at);
    lemma_convert_col(k, l, t, last, n, transposed, i);
    assert(0 <= row * real_cols && 0 <= row * pad && 0 <= col * pad) by (nonlinear_arith)
        requires
            0 <= col,
    ;
    let s = k.nodes;
    let head = convert_head(last);
    assert(s[0] == head[0] && s[1] == head[1] && s[2] == head[2] && s[3] == head[3]);
    assert(s[5] == head[5]);
    assert(v(0) == 0 && v(1) == 1 && v(2) == real_cols && v(3) == pad && v(5) == row);
    let own = convert_col(i);
    assert(v(own.0 as int) == col && own.0 < at);
    assert(v(at) != 0 <==> col < real_cols);
    lemma_product(k, l, t, at + 1, BVal(5), BVal(2), row as int, real_cols as int);
    assert(v(at + 2) == row * real_cols + col);
    if transposed {
        lemma_product(k, l, t, at + 3, own, BVal(3), col, pad as int);
        assert(v(at + 4) == col * pad + row);
    } else {
        lemma_product(k, l, t, at + 3, BVal(5), BVal(3), row as int, pad as int);
        assert(v(at + 4) == row * pad + col);
    }
    if col < real_cols {
        assert(v(at + 5) == (l.words)(0, row * real_cols + col));
    }
    assert(s[at + 6] == s[13 + 8 * (i as int)]);
}

} // verus!
