//! Translation keeps what a kernel computes: the function on tiles that a graph becomes is worth,
//! value by value and thread by thread, what the nodes of the graph are, and has their effects.
use vstd::prelude::*;

use crate::block_dsl::{BNode, BType, BVal, BlockState, node_type};
use crate::block_dsl_to_ssa::{
    Progress, argument_step, atomic_add_step, begin_acc_step, begin_step, bf16_load_step,
    bf16_store_step, binary_step, comparison_step, conversion_step, every_value_is_translated,
    extraction_step, float_load_step, float_step, fragment_step, function_of, fused_step,
    gemm_step, has_value, lds_load_step, lds_space_step, lds_store_step, matrix_product_step,
    node_step, operands, packing_step, plain_step, progress_step, range_step, selection_step,
    shifted_range_step, store_step, thread_x_step, thread_y_step, translated, unary_step, vals_ok,
    wave_reduce_step, wg_reduce_step, widening_step, with_const_step, word_load_step, word_step,
    workgroup_step, zero_sums_step,
};
use crate::lanes::{
    Floats, Launch, added, fragment, group_values, shared_store, stored, value, wave_fragments,
    wave_lane, wave_values, widened, wrapped,
};
use crate::tile_ssa::{
    BinOpKind, BlockText, CmpOpKind, ForLoop, ForLoopAcc, FuncState, ReduceKind, ScalarDType,
    TensorLayout, TileOp, TileType, UnaryOpKind, Value, empty_block, joined_type, scalar_type,
    tile_type, vector_type,
};
use crate::tiles::{
    Call, Effect, Worth, cell_place, computes, effect_of, effects_of, group_of, has_op, row_of,
    says, wave_of, wave_words, worth_cell, worth_word, worth_words,
};

verus! {

// ── Graphs ──
/// Whether a node is a word for each thread.
pub open spec fn wordy(node: BNode<Seq<char>>) -> bool {
    has_value(node) && !(node is ZeroAcc || node is Wmma || node is SplatFragment
        || node is AtomicAddU32Rtn)
}

/// Whether a node is on matrix registers, or may be.
pub open spec fn framed(node: BNode<Seq<char>>) -> bool {
    node is ZeroAcc || node is Wmma || node is SplatFragment || node is ForAccPhi
        || node is ForAccResult
}

/// Whether a node takes part in what the lanes of a wave do together.
pub open spec fn joins_lanes(node: BNode<Seq<char>>) -> bool {
    node is WaveReduceAddF32 || node is WaveReduceMaxF32 || node is Wmma
}

/// Whether an operand is a word.
pub open spec fn word_at(k: BlockState, a: BVal) -> bool {
    a.0 < k.nodes.len() && wordy(k.nodes[a.0 as int])
}

/// Whether an operand is on matrix registers.
pub open spec fn frame_at(k: BlockState, a: BVal) -> bool {
    a.0 < k.nodes.len() && framed(k.nodes[a.0 as int])
}

/// Whether the operands of a node are of the types that it calculates with.
pub open spec fn well_typed(k: BlockState, node: BNode<Seq<char>>) -> bool {
    match node {
        BNode::AddF32(a, b) | BNode::SubF32(a, b) | BNode::MulF32(a, b) | BNode::DivF32(a, b)
        | BNode::MaxF32(a, b) | BNode::MinF32(a, b) => k.typed(a, BType::F32) && word_at(k, b),
        BNode::AddU32(a, b) | BNode::SubU32(a, b) | BNode::MulU32(a, b) | BNode::LtU32(a, b)
        | BNode::GeU32(a, b) => k.typed(a, BType::U32) && word_at(k, a) && word_at(k, b),
        BNode::CmpLtF32(a, b) | BNode::CmpGtF32(a, b) | BNode::CmpEqF32(a, b) => k.typed(
            a,
            BType::F32,
        ) && k.typed(b, BType::F32),
        BNode::AndBool(a, b) => k.typed(a, BType::Mask) && k.typed(b, BType::Mask),
        BNode::FmaF32(a, b, c) => k.typed(a, BType::F32) && word_at(k, b) && word_at(k, c),
        BNode::ExpF32(a) | BNode::Log2F32(a) | BNode::SqrtF32(a) | BNode::RcpF32(a)
        | BNode::RsqrtF32(a) | BNode::AbsF32(a) | BNode::NegF32(a) | BNode::SinF32(a)
        | BNode::CosF32(a) | BNode::CvtU32F32(a) | BNode::WaveReduceAddF32(a)
        | BNode::WaveReduceMaxF32(a) | BNode::WgReduceAddF32(a) | BNode::WgReduceMaxF32(a)
        | BNode::WgReduceMinF32(a) => k.typed(a, BType::F32),
        BNode::ShrConstU32(a, _) | BNode::ShlConstU32(a, _) | BNode::AndConstU32(a, _)
        | BNode::OrConstU32(a, _) | BNode::XorConstU32(a, _) | BNode::CvtF32U32(a) => k.typed(
            a,
            BType::U32,
        ) && word_at(k, a),
        BNode::CvtF32BF16(a) => word_at(k, a),
        BNode::Select { mask, true_val, false_val } => word_at(k, mask) && k.typed(
            true_val,
            BType::F32,
        ) && word_at(k, false_val),
        BNode::Load { ptr, offsets, mask } | BNode::LoadU32 { ptr, offsets, mask }
        | BNode::LoadBf16 { ptr, offsets, mask } => word_at(k, ptr) && word_at(k, offsets)
            && word_at(k, mask),
        BNode::Store { ptr, offsets, val, mask }
        | BNode::AtomicAddF32 { ptr, offsets, val, mask } => word_at(k, ptr) && word_at(k, offsets)
            && word_at(k, val) && k.is_number(val) && word_at(k, mask),
        BNode::StoreBf16 { ptr, offsets, val, mask } => word_at(k, ptr) && word_at(k, offsets)
            && k.typed(val, BType::F32) && word_at(k, mask),
        BNode::LdsLoad { base, offset } => word_at(k, base) && word_at(k, offset),
        BNode::LdsStore { base, offset, val } => word_at(k, base) && word_at(k, offset) && word_at(
            k,
            val,
        ),
        BNode::CvtPkBf16F32 { lo, hi } => word_at(k, lo) && word_at(k, hi),
        BNode::ExtractF32 { src, .. } => frame_at(k, src),
        BNode::SplatFragment(a) => word_at(k, a),
        BNode::Wmma { a, b, c } => frame_at(k, a) && frame_at(k, b) && frame_at(k, c),
        BNode::IfMask(a) => word_at(k, a),
        BNode::ForBegin { start, end, .. } => word_at(k, start) && word_at(k, end),
        BNode::ForAccBegin { start, end, init_acc, .. } => word_at(k, start) && word_at(k, end)
            && init_acc.0 < k.nodes.len() && (k.typed(init_acc, BType::F32)
            || k.nodes[init_acc.0 as int] is ZeroAcc),
        BNode::TileGemm { a_ptr, b_ptr, y_ptr, k_dim, n_dim, .. } => word_at(k, a_ptr) && word_at(
            k,
            b_ptr,
        ) && word_at(k, y_ptr) && word_at(k, k_dim) && word_at(k, n_dim),
        _ => true,
    }
}

/// Whether a kernel can be followed: its nodes are well typed, threads are numbered along x
/// first, and what the lanes of a wave do together is done by whole waves.
pub open spec fn regular(k: BlockState) -> bool {
    &&& forall|i: int| 0 <= i < k.nodes.len() ==> #[trigger] well_typed(k, k.nodes[i])
    &&& k.block_x > 0
    &&& k.block_size > 0
    &&& k.block_y <= 1 ==> k.block_x == k.block_size
    &&& k.block_size % 32 == 0 || forall|i: int|
        0 <= i < k.nodes.len() ==> !joins_lanes(#[trigger] k.nodes[i])
    &&& 16 * k.nodes.len() + 16 <= usize::MAX
}

/// How many of the first `n` nodes are arguments.
pub open spec fn arg_count(k: BlockState, n: int) -> nat
    decreases n,
{
    if n <= 0 {
        0
    } else {
        arg_count(k, n - 1) + if k.nodes[n - 1] is ArgPtr || k.nodes[n - 1] is ArgU32 || k.nodes[n
            - 1] is ArgF32 {
            1nat
        } else {
            0
        }
    }
}

/// The effects of node `i` for thread `t`.
pub open spec fn node_effects(k: BlockState, l: Launch, t: u32, i: int) -> Seq<Effect> {
    let v = |a: BVal| value(k, l, t, a.0 as int);
    match k.nodes[i] {
        BNode::Store { .. } => seq![Effect::Store { access: stored(k, l, t, i), half: false }],
        BNode::StoreBf16 { .. } => seq![Effect::Store { access: stored(k, l, t, i), half: true }],
        BNode::AtomicAddF32 { .. } => seq![Effect::Add { access: added(k, l, t, i) }],
        BNode::LdsStore { base, .. } => match shared_store(k, l, t, i) {
            Some((place, word)) => seq![Effect::SharedStore { base: v(base), place, word }],
            None => Seq::empty(),
        },
        BNode::LdsLoad { base, offset } => seq![
            Effect::SharedLoad { base: v(base), place: v(offset) as int },
        ],
        BNode::LdsAlloc { size_bytes } => seq![Effect::Space { size: size_bytes }],
        BNode::Barrier => seq![Effect::Barrier],
        BNode::IfMask(mask) => seq![Effect::If { mask: v(mask) != 0 }],
        BNode::ElseMask => seq![Effect::Else],
        BNode::EndIf => seq![Effect::EndIf],
        BNode::TileGemm { .. } => seq![Effect::Tile],
        _ => Seq::empty(),
    }
}

/// Whether a call of the function hands over what a launch of the kernel does: arguments in the
/// order of their nodes, a pointer as the number of its node.
pub open spec fn feeds(k: BlockState, c: Call) -> bool {
    forall|i: int|
        0 <= i < k.nodes.len() ==> match #[trigger] k.nodes[i] {
            BNode::ArgPtr(_) => (c.args)(arg_count(k, i) as int) == i as u32,
            BNode::ArgU32(_) | BNode::ArgF32(_) => (c.args)(arg_count(k, i) as int) == (
            c.launch.args)(i),
            _ => true,
        }
}

/// Whether a run is in the turn of its loops that a launch looks at: counters hold the number of
/// the turn, and the value behind a counter, if the loop carries one, the carried value; and
/// parts of the local data share lie where the launch says.
pub open spec fn in_turn(
    k: BlockState,
    vals: Seq<Option<Value>>,
    w: Worth,
    c: Call,
    n: int,
) -> bool {
    forall|i: int|
        0 <= i < n ==> match (#[trigger] k.nodes[i], vals[i]) {
            (BNode::ForBegin { .. }, Some(v)) => forall|t: u32| #[trigger]
                (w.word)(v, t) == c.launch.turn,
            (BNode::ForAccBegin { .. }, Some(v)) => {
                &&& forall|t: u32| #[trigger] (w.word)(v, t) == c.launch.turn
                &&& forall|t: u32| #[trigger]
                    (w.word)(Value((v.0 + 1) as usize), t) == (c.launch.carried)(i, t)
                &&& forall|t: u32| #[trigger]
                    (w.words)(Value((v.0 + 1) as usize), t) == (c.launch.carried_words)(i, t)
            },
            (BNode::LdsAlloc { .. }, Some(v)) => (c.space)(v) == (c.launch.space)(i),
            _ => true,
        }
}

// ── Functions under construction ──
/// Whether types begin with others.
pub open spec fn begins(a: Seq<TileType>, ty: Seq<TileType>) -> bool {
    a.len() <= ty.len() && forall|i: int| 0 <= i < a.len() ==> #[trigger] a[i] == ty[i]
}

/// Whether operations were added to the current block, and values of some types.
pub open spec fn appended(
    f: FuncState,
    g: FuncState,
    ops: Seq<TileOp>,
    tys: Seq<TileType>,
) -> bool {
    &&& 0 <= f.current < f.blocks.len()
    &&& g.current == f.current
    &&& g.types == f.types + tys
    &&& g.blocks == f.blocks.update(
        f.current,
        BlockText {
            params: f.blocks[f.current].params,
            ops: f.blocks[f.current].ops + ops,
        },
    )
}

/// The operations that were added to what was the current block.
pub open spec fn added_ops(f: FuncState, g: FuncState) -> Seq<TileOp> {
    g.blocks[f.current].ops.skip(f.blocks[f.current].ops.len() as int)
}

proof fn lemma_start(f: FuncState)
    requires
        0 <= f.current < f.blocks.len(),
    ensures
        appended(f, f, Seq::empty(), Seq::empty()),
{
    assert(f.types + Seq::empty() =~= f.types);
    assert(f.blocks[f.current].ops + Seq::empty() =~= f.blocks[f.current].ops);
    assert(f.blocks =~= f.blocks.update(
        f.current,
        BlockText {
            params: f.blocks[f.current].params,
            ops: f.blocks[f.current].ops + Seq::empty(),
        },
    ));
}

proof fn lemma_define(
    f: FuncState,
    g: FuncState,
    ops: Seq<TileOp>,
    tys: Seq<TileType>,
    ty: TileType,
    op: TileOp,
)
    requires
        appended(f, g, ops, tys),
    ensures
        appended(f, g.define(ty, op), ops.push(op), tys.push(ty)),
        g.define(ty, op).args == g.args,
{
    let h = g.define(ty, op);
    assert(f.types + tys.push(ty) =~= (f.types + tys).push(ty));
    assert(f.blocks[f.current].ops + ops.push(op) =~= (f.blocks[f.current].ops + ops).push(op));
    assert(h.blocks =~= f.blocks.update(
        f.current,
        BlockText {
            params: f.blocks[f.current].params,
            ops: f.blocks[f.current].ops + ops.push(op),
        },
    ));
}

proof fn lemma_with_op(
    f: FuncState,
    g: FuncState,
    ops: Seq<TileOp>,
    tys: Seq<TileType>,
    op: TileOp,
)
    requires
        appended(f, g, ops, tys),
    ensures
        appended(f, g.with_op(op), ops.push(op), tys),
        g.with_op(op).args == g.args,
        g.with_op(op).types == g.types,
{
    let h = g.with_op(op);
    assert(f.blocks[f.current].ops + ops.push(op) =~= (f.blocks[f.current].ops + ops).push(op));
    assert(h.blocks =~= f.blocks.update(
        f.current,
        BlockText {
            params: f.blocks[f.current].params,
            ops: f.blocks[f.current].ops + ops.push(op),
        },
    ));
}

proof fn lemma_added(f: FuncState, g: FuncState, ops: Seq<TileOp>, tys: Seq<TileType>)
    requires
        appended(f, g, ops, tys),
    ensures
        added_ops(f, g) == ops,
        forall|op: TileOp| #[trigger] has_op(f, op) ==> has_op(g, op),
        forall|j: int| 0 <= j < ops.len() ==> has_op(g, #[trigger] ops[j]),
{
    let b = f.current;
    assert(added_ops(f, g) =~= ops);
    assert forall|op: TileOp| #[trigger] has_op(f, op) implies has_op(g, op) by {
        let (c, j) = choose|c: int, j: int|
            0 <= c < f.blocks.len() && 0 <= j < f.blocks[c].ops.len()
                && #[trigger] f.blocks[c].ops[j] == op;
        assert(g.blocks[c].ops[j] == op);
    }
    assert forall|j: int| 0 <= j < ops.len() implies has_op(g, #[trigger] ops[j]) by {
        assert(g.blocks[b].ops[f.blocks[b].ops.len() + j] == ops[j]);
    }
}

// ── Single nodes ──
/// What the nodes so far became, in a run of the function.
pub open spec fn known(
    k: BlockState,
    n: int,
    vals: Seq<Option<Value>>,
    ty: Seq<TileType>,
    w: Worth,
    c: Call,
) -> bool {
    &&& vals.len() == n
    &&& forall|i: int, t: u32|
        0 <= i < n && wordy(k.nodes[i]) && t < k.block_size ==> (w.word)(vals[i]->0, t)
            == #[trigger] value(k, c.launch, t, i)
    &&& forall|i: int, t: u32|
        0 <= i < n && framed(k.nodes[i]) && t < k.block_size ==> (w.words)(vals[i]->0, t)
            == #[trigger] fragment(k, c.launch, t, i)
    &&& forall|i: int|
        0 <= i < n && has_value(k.nodes[i]) ==> (#[trigger] vals[i]) is Some && (vals[i]->0).0
            < ty.len() && dtype_fits(k.nodes[i], ty[(vals[i]->0).0 as int].dtype)
}

/// Whether elements of a kind are what a node is of.
pub open spec fn dtype_fits(node: BNode<Seq<char>>, d: ScalarDType) -> bool {
    match node_type(node) {
        BType::F32 => d == ScalarDType::F32,
        BType::U32 => d == ScalarDType::U32,
        BType::Mask => d == ScalarDType::Bool,
        _ => node is ZeroAcc ==> d == ScalarDType::F32,
    }
}

/// Whether a node became what it is: its value is worth what the node is, is of its kind, and
/// the operations that were added have its effects.
pub open spec fn kept(
    k: BlockState,
    i: int,
    f: FuncState,
    g: FuncState,
    v: Option<Value>,
    ty: Seq<TileType>,
    w: Worth,
    c: Call,
) -> bool {
    let node = k.nodes[i];
    &&& wordy(node) ==> v is Some && forall|t: u32|
        t < k.block_size ==> (w.word)(v->0, t) == #[trigger] value(k, c.launch, t, i)
    &&& framed(node) ==> v is Some && forall|t: u32|
        t < k.block_size ==> (w.words)(v->0, t) == #[trigger] fragment(k, c.launch, t, i)
    &&& has_value(node) ==> v is Some && (v->0).0 < ty.len() && dtype_fits(
        node,
        ty[(v->0).0 as int].dtype,
    )
    &&& forall|t: u32|
        t < k.block_size ==> #[trigger] effects_of(added_ops(f, g), ty, w, t) == node_effects(
            k,
            c.launch,
            t,
            i,
        )
}

/// What is given when node `i` is translated in a run.
pub open spec fn given(
    k: BlockState,
    i: int,
    f: FuncState,
    g: FuncState,
    vals: Seq<Option<Value>>,
    ty: Seq<TileType>,
    w: Worth,
    c: Call,
) -> bool {
    &&& regular(k)
    &&& feeds(k, c)
    &&& 0 <= i < k.nodes.len()
    &&& known(k, i, vals, ty, w, c)
    &&& begins(g.types, ty)
    &&& ty.len() <= usize::MAX
    &&& computes(g, ty, w, c)
    &&& f.args.len() == arg_count(k, i)
    &&& f.args.len() <= usize::MAX
    &&& k.nodes[i] is LdsAlloc ==> (c.space)(f.next()) == (c.launch.space)(i)
}

proof fn lemma_effects_push(ops: Seq<TileOp>, op: TileOp, ty: Seq<TileType>, w: Worth, t: u32)
    ensures
        effects_of(ops.push(op), ty, w, t) == match effect_of(op, ty, w, t) {
            Some(e) => effects_of(ops, ty, w, t).push(e),
            None => effects_of(ops, ty, w, t),
        },
{
    assert(ops.push(op).drop_last() =~= ops);
}

/// Operations without effects.
proof fn lemma_silent(ops: Seq<TileOp>, ty: Seq<TileType>, w: Worth, t: u32)
    requires
        forall|j: int| 0 <= j < ops.len() ==> effect_of(#[trigger] ops[j], ty, w, t) is None,
    ensures
        effects_of(ops, ty, w, t) == Seq::<Effect>::empty(),
    decreases ops.len(),
{
    if ops.len() > 0 {
        let init = ops.drop_last();
        assert forall|j: int| 0 <= j < init.len() implies effect_of(
            #[trigger] init[j],
            ty,
            w,
            t,
        ) is None by {
            assert(init[j] == ops[j]);
        }
        lemma_silent(init, ty, w, t);
        assert(ops[ops.len() - 1] == ops.last());
    }
}

/// What an operation that was added says.
proof fn lemma_says(
    f: FuncState,
    g: FuncState,
    ops: Seq<TileOp>,
    tys: Seq<TileType>,
    j: int,
    ty: Seq<TileType>,
    w: Worth,
    c: Call,
)
    requires
        appended(f, g, ops, tys),
        0 <= j < ops.len(),
        computes(g, ty, w, c),
    ensures
        says(ops[j], ty, w, c),
{
    lemma_added(f, g, ops, tys);
    assert(has_op(g, ops[j]));
}

/// Whether a function grew by one node: operations in the current block, and a few values.
pub open spec fn grown(f: FuncState, g: FuncState) -> bool {
    &&& appended(f, g, added_ops(f, g), g.types.skip(f.types.len() as int))
    &&& f.types.len() <= g.types.len() <= f.types.len() + 12
}

/// What holds of the translation of one node, whether it is run or not.
spec fn moved(k: BlockState, i: int, f: FuncState, g: FuncState, v: Option<Value>) -> bool {
    &&& grown(f, g)
    &&& v matches Some(x) ==> x.0 < g.types.len()
    &&& g.args.len() == f.args.len() + if k.nodes[i] is ArgPtr || k.nodes[i] is ArgU32
        || k.nodes[i] is ArgF32 {
        1nat
    } else {
        0
    }
}

/// What the translation of one node starts from.
spec fn startable(k: BlockState, i: int, f: FuncState, vals: Seq<Option<Value>>) -> bool {
    &&& 0 <= f.current < f.blocks.len()
    &&& f.types.len() + 12 <= usize::MAX
    &&& vals_ok(f, vals)
    &&& vals.len() == i
    &&& 0 <= i < k.nodes.len()
}

proof fn lemma_grown(f: FuncState, g: FuncState, ops: Seq<TileOp>, tys: Seq<TileType>)
    requires
        appended(f, g, ops, tys),
        tys.len() <= 12,
    ensures
        grown(f, g),
        added_ops(f, g) == ops,
{
    lemma_added(f, g, ops, tys);
    assert(g.types.skip(f.types.len() as int) =~= tys);
}

/// A node that becomes one operation with a result.
proof fn lemma_single(
    f: FuncState,
    g: FuncState,
    t0: TileType,
    op: TileOp,
    ty: Seq<TileType>,
    w: Worth,
    c: Call,
)
    requires
        0 <= f.current < f.blocks.len(),
        f.types.len() + 12 <= usize::MAX,
        g.types == f.define(t0, op).types,
        g.blocks == f.define(t0, op).blocks,
        g.current == f.current,
        op.defines() == Some(f.next()),
    ensures
        grown(f, g),
        f.next().0 == f.types.len(),
        f.next().0 < g.types.len(),
        added_ops(f, g) == seq![op],
        computes(g, ty, w, c) ==> says(op, ty, w, c),
        begins(g.types, ty) ==> ty[f.next().0 as int] == t0,
        forall|t: u32| #[trigger]
            effects_of(added_ops(f, g), ty, w, t) == match effect_of(op, ty, w, t) {
                Some(e) => seq![e],
                None => Seq::<Effect>::empty(),
            },
{
    lemma_start(f);
    lemma_define(f, f, Seq::empty(), Seq::empty(), t0, op);
    let ops = Seq::empty().push(op);
    let tys = Seq::empty().push(t0);
    assert(appended(f, g, ops, tys));
    lemma_grown(f, g, ops, tys);
    assert(ops =~= seq![op]);
    if computes(g, ty, w, c) {
        lemma_says(f, g, ops, tys, 0, ty, w, c);
    }
    assert(g.types[f.types.len() as int] == t0);
    assert forall|t: u32| #[trigger]
        effects_of(added_ops(f, g), ty, w, t) == match effect_of(op, ty, w, t) {
            Some(e) => seq![e],
            None => Seq::<Effect>::empty(),
        } by {
        lemma_effects_push(Seq::empty(), op, ty, w, t);
        let none = Seq::<TileOp>::empty();
        assert(effects_of(none, ty, w, t) =~= Seq::empty());
        match effect_of(op, ty, w, t) {
            Some(e) => {
                assert(effects_of(none, ty, w, t).push(e) =~= seq![e]);
            },
            None => {},
        }
    }
}

/// A node that becomes two operations with results.
proof fn lemma_pair(
    f: FuncState,
    g: FuncState,
    t0: TileType,
    op0: TileOp,
    t1: TileType,
    op1: TileOp,
    ty: Seq<TileType>,
    w: Worth,
    c: Call,
)
    requires
        0 <= f.current < f.blocks.len(),
        f.types.len() + 12 <= usize::MAX,
        g == f.define(t0, op0).define(t1, op1),
        op0.defines() == Some(f.next()),
        op1.defines() == Some(f.define(t0, op0).next()),
    ensures
        grown(f, g),
        f.next().0 == f.types.len(),
        f.define(t0, op0).next().0 == f.types.len() + 1,
        f.types.len() + 1 < g.types.len(),
        g.args == f.args,
        added_ops(f, g) == seq![op0, op1],
        computes(g, ty, w, c) ==> says(op0, ty, w, c) && says(op1, ty, w, c),
        begins(g.types, ty) ==> ty[f.types.len() as int] == t0 && ty[f.types.len() as int + 1]
            == t1,
        forall|t: u32|
            effect_of(op0, ty, w, t) is None && effect_of(op1, ty, w, t) is None
                ==> #[trigger] effects_of(added_ops(f, g), ty, w, t) == Seq::<Effect>::empty(),
{
    lemma_start(f);
    let f1 = f.define(t0, op0);
    lemma_define(f, f, Seq::empty(), Seq::empty(), t0, op0);
    let ops1 = Seq::empty().push(op0);
    let tys1 = Seq::empty().push(t0);
    lemma_define(f, f1, ops1, tys1, t1, op1);
    let ops = ops1.push(op1);
    let tys = tys1.push(t1);
    lemma_grown(f, g, ops, tys);
    assert(ops =~= seq![op0, op1]);
    if computes(g, ty, w, c) {
        lemma_says(f, g, ops, tys, 0, ty, w, c);
        lemma_says(f, g, ops, tys, 1, ty, w, c);
    }
    assert(g.types[f.types.len() as int] == t0);
    assert(g.types[f.types.len() as int + 1] == t1);
    assert forall|t: u32|
        effect_of(op0, ty, w, t) is None && effect_of(op1, ty, w, t)
            is None implies #[trigger] effects_of(added_ops(f, g), ty, w, t)
        == Seq::<Effect>::empty() by {
        lemma_silent(ops, ty, w, t);
    }
}

/// A node that becomes one operation without a result.
proof fn lemma_plain_op(
    f: FuncState,
    g: FuncState,
    op: TileOp,
    ty: Seq<TileType>,
    w: Worth,
)
    requires
        0 <= f.current < f.blocks.len(),
        g == f.with_op(op),
    ensures
        grown(f, g),
        g.args == f.args,
        added_ops(f, g) == seq![op],
        forall|t: u32| #[trigger]
            effects_of(added_ops(f, g), ty, w, t) == match effect_of(op, ty, w, t) {
                Some(e) => seq![e],
                None => Seq::<Effect>::empty(),
            },
{
    lemma_start(f);
    lemma_with_op(f, f, Seq::empty(), Seq::empty(), op);
    let ops = Seq::empty().push(op);
    lemma_grown(f, g, ops, Seq::empty());
    assert(ops =~= seq![op]);
    assert forall|t: u32| #[trigger]
        effects_of(added_ops(f, g), ty, w, t) == match effect_of(op, ty, w, t) {
            Some(e) => seq![e],
            None => Seq::<Effect>::empty(),
        } by {
        lemma_effects_push(Seq::empty(), op, ty, w, t);
        let none = Seq::<TileOp>::empty();
        assert(effects_of(none, ty, w, t) =~= Seq::empty());
        match effect_of(op, ty, w, t) {
            Some(e) => {
                assert(effects_of(none, ty, w, t).push(e) =~= seq![e]);
            },
            None => {},
        }
    }
}

/// What one operation with a result comes to: the result is worth what the operation says.
proof fn lemma_single_node(
    k: BlockState,
    i: int,
    f: FuncState,
    vals: Seq<Option<Value>>,
    g: FuncState,
    t0: TileType,
    op: TileOp,
    ty: Seq<TileType>,
    w: Worth,
    c: Call,
)
    requires
        startable(k, i, f, vals),
        g == f.define(t0, op),
        op.defines() == Some(f.next()),
        !(k.nodes[i] is ArgPtr || k.nodes[i] is ArgU32 || k.nodes[i] is ArgF32),
    ensures
        moved(k, i, f, g, Some(f.next())),
        begins(g.types, ty) ==> ty[f.next().0 as int] == t0 && forall|j: int|
            0 <= j < i ==> (#[trigger] vals[j] matches Some(x) ==> ty[x.0 as int] == f.ty(x)),
        computes(g, ty, w, c) ==> forall|t: u32| #[trigger] worth_word(op, ty, w, c, t),
        computes(g, ty, w, c) ==> forall|t: u32| #[trigger] worth_words(op, w, c, t),
        forall|t: u32| #[trigger]
            effects_of(added_ops(f, g), ty, w, t) == match effect_of(op, ty, w, t) {
                Some(e) => seq![e],
                None => Seq::<Effect>::empty(),
            },
{
    lemma_single(f, g, t0, op, ty, w, c);
    if begins(g.types, ty) {
        assert forall|j: int| 0 <= j < i implies (#[trigger] vals[j] matches Some(x)
            ==> ty[x.0 as int] == f.ty(x)) by {
            match vals[j] {
                Some(x) => {
                    assert(g.types[x.0 as int] == f.types[x.0 as int]);
                },
                None => {},
            }
        }
    }
}

/// An operation on two floats.
#[verifier::spinoff_prover]
#[verifier::rlimit(40)]
proof fn lemma_float_node(
    k: BlockState,
    i: int,
    f: FuncState,
    vals: Seq<Option<Value>>,
    g: FuncState,
    v: Option<Value>,
    ty: Seq<TileType>,
    w: Worth,
    c: Call,
)
    requires
        startable(k, i, f, vals),
        node_step(k, f, vals, k.nodes[i]) == Ok::<(FuncState, Option<Value>), Seq<char>>((g, v)),
        k.nodes[i] is AddF32 || k.nodes[i] is SubF32 || k.nodes[i] is MulF32
            || k.nodes[i] is DivF32 || k.nodes[i] is MaxF32 || k.nodes[i] is MinF32,
    ensures
        moved(k, i, f, g, v),
        given(k, i, f, g, vals, ty, w, c) ==> kept(k, i, f, g, v, ty, w, c),
{
    reveal(node_step);
    reveal(binary_step);
    match k.nodes[i] {
        BNode::AddF32(a, b) => {
            let (va, vb) = (vals[a.0 as int]->0, vals[b.0 as int]->0);
            let op = TileOp::Binary { result: f.next(), kind: BinOpKind::Add, lhs: va, rhs: vb };
            lemma_single_node(k, i, f, vals, g, joined_type(f.ty(va), f.ty(vb)), op, ty, w, c);
            if given(k, i, f, g, vals, ty, w, c) {
                assert(well_typed(k, k.nodes[i]));
                assert forall|t: u32| t < k.block_size implies (w.word)(v->0, t)
                    == #[trigger] value(k, c.launch, t, i) by {
                    assert(worth_word(op, ty, w, c, t));
                    assert((w.word)(va, t) == value(k, c.launch, t, a.0 as int));
                    assert((w.word)(vb, t) == value(k, c.launch, t, b.0 as int));
                }
            }
        },
        BNode::SubF32(a, b) => {
            let (va, vb) = (vals[a.0 as int]->0, vals[b.0 as int]->0);
            let op = TileOp::Binary { result: f.next(), kind: BinOpKind::Sub, lhs: va, rhs: vb };
            lemma_single_node(k, i, f, vals, g, joined_type(f.ty(va), f.ty(vb)), op, ty, w, c);
            if given(k, i, f, g, vals, ty, w, c) {
                assert(well_typed(k, k.nodes[i]));
                assert forall|t: u32| t < k.block_size implies (w.word)(v->0, t)
                    == #[trigger] value(k, c.launch, t, i) by {
                    assert(worth_word(op, ty, w, c, t));
                    assert((w.word)(va, t) == value(k, c.launch, t, a.0 as int));
                    assert((w.word)(vb, t) == value(k, c.launch, t, b.0 as int));
                }
            }
        },
        BNode::MulF32(a, b) => {
            let (va, vb) = (vals[a.0 as int]->0, vals[b.0 as int]->0);
            let op = TileOp::Binary { result: f.next(), kind: BinOpKind::Mul, lhs: va, rhs: vb };
            lemma_single_node(k, i, f, vals, g, joined_type(f.ty(va), f.ty(vb)), op, ty, w, c);
            if given(k, i, f, g, vals, ty, w, c) {
                assert(well_typed(k, k.nodes[i]));
                assert forall|t: u32| t < k.block_size implies (w.word)(v->0, t)
                    == #[trigger] value(k, c.launch, t, i) by {
                    assert(worth_word(op, ty, w, c, t));
                    assert((w.word)(va, t) == value(k, c.launch, t, a.0 as int));
                    assert((w.word)(vb, t) == value(k, c.launch, t, b.0 as int));
                }
            }
        },
        BNode::DivF32(a, b) => {
            let (va, vb) = (vals[a.0 as int]->0, vals[b.0 as int]->0);
            let op = TileOp::Binary { result: f.next(), kind: BinOpKind::Div, lhs: va, rhs: vb };
            lemma_single_node(k, i, f, vals, g, joined_type(f.ty(va), f.ty(vb)), op, ty, w, c);
            if given(k, i, f, g, vals, ty, w, c) {
                assert(well_typed(k, k.nodes[i]));
                assert forall|t: u32| t < k.block_size implies (w.word)(v->0, t)
                    == #[trigger] value(k, c.launch, t, i) by {
                    assert(worth_word(op, ty, w, c, t));
                    assert((w.word)(va, t) == value(k, c.launch, t, a.0 as int));
                    assert((w.word)(vb, t) == value(k, c.launch, t, b.0 as int));
                }
            }
        },
        BNode::MaxF32(a, b) => {
            let (va, vb) = (vals[a.0 as int]->0, vals[b.0 as int]->0);
            let op = TileOp::Binary { result: f.next(), kind: BinOpKind::Max, lhs: va, rhs: vb };
            lemma_single_node(k, i, f, vals, g, joined_type(f.ty(va), f.ty(vb)), op, ty, w, c);
            if given(k, i, f, g, vals, ty, w, c) {
                assert(well_typed(k, k.nodes[i]));
                assert forall|t: u32| t < k.block_size implies (w.word)(v->0, t)
                    == #[trigger] value(k, c.launch, t, i) by {
                    assert(worth_word(op, ty, w, c, t));
                    assert((w.word)(va, t) == value(k, c.launch, t, a.0 as int));
                    assert((w.word)(vb, t) == value(k, c.launch, t, b.0 as int));
                }
            }
        },
        BNode::MinF32(a, b) => {
            let (va, vb) = (vals[a.0 as int]->0, vals[b.0 as int]->0);
            let op = TileOp::Binary { result: f.next(), kind: BinOpKind::Min, lhs: va, rhs: vb };
            lemma_single_node(k, i, f, vals, g, joined_type(f.ty(va), f.ty(vb)), op, ty, w, c);
            if given(k, i, f, g, vals, ty, w, c) {
                assert(well_typed(k, k.nodes[i]));
                assert forall|t: u32| t < k.block_size implies (w.word)(v->0, t)
                    == #[trigger] value(k, c.launch, t, i) by {
                    assert(worth_word(op, ty, w, c, t));
                    assert((w.word)(va, t) == value(k, c.launch, t, a.0 as int));
                    assert((w.word)(vb, t) == value(k, c.launch, t, b.0 as int));
                }
            }
        },
        _ => {},
    }
}

/// An operation on two words or masks.
#[verifier::spinoff_prover]
#[verifier::rlimit(40)]
proof fn lemma_word_node(
    k: BlockState,
    i: int,
    f: FuncState,
    vals: Seq<Option<Value>>,
    g: FuncState,
    v: Option<Value>,
    ty: Seq<TileType>,
    w: Worth,
    c: Call,
)
    requires
        startable(k, i, f, vals),
        node_step(k, f, vals, k.nodes[i]) == Ok::<(FuncState, Option<Value>), Seq<char>>((g, v)),
        k.nodes[i] is AddU32 || k.nodes[i] is SubU32 || k.nodes[i] is MulU32
            || k.nodes[i] is AndBool,
    ensures
        moved(k, i, f, g, v),
        given(k, i, f, g, vals, ty, w, c) ==> kept(k, i, f, g, v, ty, w, c),
{
    reveal(node_step);
    reveal(binary_step);
    match k.nodes[i] {
        BNode::AddU32(a, b) => {
            let (va, vb) = (vals[a.0 as int]->0, vals[b.0 as int]->0);
            let op = TileOp::Binary { result: f.next(), kind: BinOpKind::Add, lhs: va, rhs: vb };
            lemma_single_node(k, i, f, vals, g, joined_type(f.ty(va), f.ty(vb)), op, ty, w, c);
            if given(k, i, f, g, vals, ty, w, c) {
                assert(well_typed(k, k.nodes[i]));
                assert forall|t: u32| t < k.block_size implies (w.word)(v->0, t)
                    == #[trigger] value(k, c.launch, t, i) by {
                    assert(worth_word(op, ty, w, c, t));
                    assert((w.word)(va, t) == value(k, c.launch, t, a.0 as int));
                    assert((w.word)(vb, t) == value(k, c.launch, t, b.0 as int));
                }
            }
        },
        BNode::SubU32(a, b) => {
            let (va, vb) = (vals[a.0 as int]->0, vals[b.0 as int]->0);
            let op = TileOp::Binary { result: f.next(), kind: BinOpKind::Sub, lhs: va, rhs: vb };
            lemma_single_node(k, i, f, vals, g, joined_type(f.ty(va), f.ty(vb)), op, ty, w, c);
            if given(k, i, f, g, vals, ty, w, c) {
                assert(well_typed(k, k.nodes[i]));
                assert forall|t: u32| t < k.block_size implies (w.word)(v->0, t)
                    == #[trigger] value(k, c.launch, t, i) by {
                    assert(worth_word(op, ty, w, c, t));
                    assert((w.word)(va, t) == value(k, c.launch, t, a.0 as int));
                    assert((w.word)(vb, t) == value(k, c.launch, t, b.0 as int));
                }
            }
        },
        BNode::MulU32(a, b) => {
            let (va, vb) = (vals[a.0 as int]->0, vals[b.0 as int]->0);
            let op = TileOp::Binary { result: f.next(), kind: BinOpKind::Mul, lhs: va, rhs: vb };
            lemma_single_node(k, i, f, vals, g, joined_type(f.ty(va), f.ty(vb)), op, ty, w, c);
            if given(k, i, f, g, vals, ty, w, c) {
                assert(well_typed(k, k.nodes[i]));
                assert forall|t: u32| t < k.block_size implies (w.word)(v->0, t)
                    == #[trigger] value(k, c.launch, t, i) by {
                    assert(worth_word(op, ty, w, c, t));
                    assert((w.word)(va, t) == value(k, c.launch, t, a.0 as int));
                    assert((w.word)(vb, t) == value(k, c.launch, t, b.0 as int));
                }
            }
        },
        BNode::AndBool(a, b) => {
            let (va, vb) = (vals[a.0 as int]->0, vals[b.0 as int]->0);
            let op = TileOp::Binary { result: f.next(), kind: BinOpKind::And, lhs: va, rhs: vb };
            lemma_single_node(k, i, f, vals, g, joined_type(f.ty(va), f.ty(vb)), op, ty, w, c);
            if given(k, i, f, g, vals, ty, w, c) {
                assert(well_typed(k, k.nodes[i]));
                assert forall|t: u32| t < k.block_size implies (w.word)(v->0, t)
                    == #[trigger] value(k, c.launch, t, i) by {
                    assert(worth_word(op, ty, w, c, t));
                    assert((w.word)(va, t) == value(k, c.launch, t, a.0 as int));
                    assert((w.word)(vb, t) == value(k, c.launch, t, b.0 as int));
                }
            }
        },
        _ => {},
    }
}

/// A function of one float.
#[verifier::spinoff_prover]
#[verifier::rlimit(40)]
proof fn lemma_unary_node(
    k: BlockState,
    i: int,
    f: FuncState,
    vals: Seq<Option<Value>>,
    g: FuncState,
    v: Option<Value>,
    ty: Seq<TileType>,
    w: Worth,
    c: Call,
)
    requires
        startable(k, i, f, vals),
        node_step(k, f, vals, k.nodes[i]) == Ok::<(FuncState, Option<Value>), Seq<char>>((g, v)),
        k.nodes[i] is ExpF32 || k.nodes[i] is Log2F32 || k.nodes[i] is SqrtF32
            || k.nodes[i] is RcpF32 || k.nodes[i] is RsqrtF32 || k.nodes[i] is AbsF32
            || k.nodes[i] is NegF32 || k.nodes[i] is SinF32 || k.nodes[i] is CosF32,
    ensures
        moved(k, i, f, g, v),
        given(k, i, f, g, vals, ty, w, c) ==> kept(k, i, f, g, v, ty, w, c),
{
    reveal(node_step);
    reveal(unary_step);
    match k.nodes[i] {
        BNode::ExpF32(a) => {
            let va = vals[a.0 as int]->0;
            let op = TileOp::Unary { result: f.next(), kind: UnaryOpKind::Exp2, src: va };
            lemma_single_node(k, i, f, vals, g, f.ty(va), op, ty, w, c);
            if given(k, i, f, g, vals, ty, w, c) {
                assert(well_typed(k, k.nodes[i]));
                assert forall|t: u32| t < k.block_size implies (w.word)(v->0, t)
                    == #[trigger] value(k, c.launch, t, i) by {
                    assert(worth_word(op, ty, w, c, t));
                    assert((w.word)(va, t) == value(k, c.launch, t, a.0 as int));
                }
            }
        },
        BNode::Log2F32(a) => {
            let va = vals[a.0 as int]->0;
            let op = TileOp::Unary { result: f.next(), kind: UnaryOpKind::Log2, src: va };
            lemma_single_node(k, i, f, vals, g, f.ty(va), op, ty, w, c);
            if given(k, i, f, g, vals, ty, w, c) {
                assert(well_typed(k, k.nodes[i]));
                assert forall|t: u32| t < k.block_size implies (w.word)(v->0, t)
                    == #[trigger] value(k, c.launch, t, i) by {
                    assert(worth_word(op, ty, w, c, t));
                    assert((w.word)(va, t) == value(k, c.launch, t, a.0 as int));
                }
            }
        },
        BNode::SqrtF32(a) => {
            let va = vals[a.0 as int]->0;
            let op = TileOp::Unary { result: f.next(), kind: UnaryOpKind::Sqrt, src: va };
            lemma_single_node(k, i, f, vals, g, f.ty(va), op, ty, w, c);
            if given(k, i, f, g, vals, ty, w, c) {
                assert(well_typed(k, k.nodes[i]));
                assert forall|t: u32| t < k.block_size implies (w.word)(v->0, t)
                    == #[trigger] value(k, c.launch, t, i) by {
                    assert(worth_word(op, ty, w, c, t));
                    assert((w.word)(va, t) == value(k, c.launch, t, a.0 as int));
                }
            }
        },
        BNode::RcpF32(a) => {
            let va = vals[a.0 as int]->0;
            let op = TileOp::Unary { result: f.next(), kind: UnaryOpKind::Rcp, src: va };
            lemma_single_node(k, i, f, vals, g, f.ty(va), op, ty, w, c);
            if given(k, i, f, g, vals, ty, w, c) {
                assert(well_typed(k, k.nodes[i]));
                assert forall|t: u32| t < k.block_size implies (w.word)(v->0, t)
                    == #[trigger] value(k, c.launch, t, i) by {
                    assert(worth_word(op, ty, w, c, t));
                    assert((w.word)(va, t) == value(k, c.launch, t, a.0 as int));
                }
            }
        },
        BNode::RsqrtF32(a) => {
            let va = vals[a.0 as int]->0;
            let op = TileOp::Unary { result: f.next(), kind: UnaryOpKind::Rsqrt, src: va };
            lemma_single_node(k, i, f, vals, g, f.ty(va), op, ty, w, c);
            if given(k, i, f, g, vals, ty, w, c) {
                assert(well_typed(k, k.nodes[i]));
                assert forall|t: u32| t < k.block_size implies (w.word)(v->0, t)
                    == #[trigger] value(k, c.launch, t, i) by {
                    assert(worth_word(op, ty, w, c, t));
                    assert((w.word)(va, t) == value(k, c.launch, t, a.0 as int));
                }
            }
        },
        BNode::AbsF32(a) => {
            let va = vals[a.0 as int]->0;
            let op = TileOp::Unary { result: f.next(), kind: UnaryOpKind::Abs, src: va };
            lemma_single_node(k, i, f, vals, g, f.ty(va), op, ty, w, c);
            if given(k, i, f, g, vals, ty, w, c) {
                assert(well_typed(k, k.nodes[i]));
                assert forall|t: u32| t < k.block_size implies (w.word)(v->0, t)
                    == #[trigger] value(k, c.launch, t, i) by {
                    assert(worth_word(op, ty, w, c, t));
                    assert((w.word)(va, t) == value(k, c.launch, t, a.0 as int));
                }
            }
        },
        BNode::NegF32(a) => {
            let va = vals[a.0 as int]->0;
            let op = TileOp::Unary { result: f.next(), kind: UnaryOpKind::Neg, src: va };
            lemma_single_node(k, i, f, vals, g, f.ty(va), op, ty, w, c);
            if given(k, i, f, g, vals, ty, w, c) {
                assert(well_typed(k, k.nodes[i]));
                assert forall|t: u32| t < k.block_size implies (w.word)(v->0, t)
                    == #[trigger] value(k, c.launch, t, i) by {
                    assert(worth_word(op, ty, w, c, t));
                    assert((w.word)(va, t) == value(k, c.launch, t, a.0 as int));
                }
            }
        },
        BNode::SinF32(a) => {
            let va = vals[a.0 as int]->0;
            let op = TileOp::Unary { result: f.next(), kind: UnaryOpKind::Sin, src: va };
            lemma_single_node(k, i, f, vals, g, f.ty(va), op, ty, w, c);
            if given(k, i, f, g, vals, ty, w, c) {
                assert(well_typed(k, k.nodes[i]));
                assert forall|t: u32| t < k.block_size implies (w.word)(v->0, t)
                    == #[trigger] value(k, c.launch, t, i) by {
                    assert(worth_word(op, ty, w, c, t));
                    assert((w.word)(va, t) == value(k, c.launch, t, a.0 as int));
                }
            }
        },
        BNode::CosF32(a) => {
            let va = vals[a.0 as int]->0;
            let op = TileOp::Unary { result: f.next(), kind: UnaryOpKind::Cos, src: va };
            lemma_single_node(k, i, f, vals, g, f.ty(va), op, ty, w, c);
            if given(k, i, f, g, vals, ty, w, c) {
                assert(well_typed(k, k.nodes[i]));
                assert forall|t: u32| t < k.block_size implies (w.word)(v->0, t)
                    == #[trigger] value(k, c.launch, t, i) by {
                    assert(worth_word(op, ty, w, c, t));
                    assert((w.word)(va, t) == value(k, c.launch, t, a.0 as int));
                }
            }
        },
        _ => {},
    }
}

/// A comparison.
#[verifier::spinoff_prover]
#[verifier::rlimit(40)]
proof fn lemma_compare_node(
    k: BlockState,
    i: int,
    f: FuncState,
    vals: Seq<Option<Value>>,
    g: FuncState,
    v: Option<Value>,
    ty: Seq<TileType>,
    w: Worth,
    c: Call,
)
    requires
        startable(k, i, f, vals),
        node_step(k, f, vals, k.nodes[i]) == Ok::<(FuncState, Option<Value>), Seq<char>>((g, v)),
        k.nodes[i] is LtU32 || k.nodes[i] is GeU32 || k.nodes[i] is CmpLtF32
            || k.nodes[i] is CmpGtF32 || k.nodes[i] is CmpEqF32,
    ensures
        moved(k, i, f, g, v),
        given(k, i, f, g, vals, ty, w, c) ==> kept(k, i, f, g, v, ty, w, c),
{
    reveal(node_step);
    reveal(comparison_step);
    match k.nodes[i] {
        BNode::LtU32(a, b) => {
            let (va, vb) = (vals[a.0 as int]->0, vals[b.0 as int]->0);
            let op = TileOp::Compare {
                result: f.next(),
                kind: CmpOpKind::Lt,
                lhs: va,
                rhs: vb,
            };
            let t0 = TileType {
                dtype: ScalarDType::Bool,
                ..joined_type(f.ty(va), f.ty(vb))
            };
            lemma_single_node(k, i, f, vals, g, t0, op, ty, w, c);
            if given(k, i, f, g, vals, ty, w, c) {
                assert(well_typed(k, k.nodes[i]));
                assert forall|t: u32| t < k.block_size implies (w.word)(v->0, t)
                    == #[trigger] value(k, c.launch, t, i) by {
                    assert(worth_word(op, ty, w, c, t));
                    assert((w.word)(va, t) == value(k, c.launch, t, a.0 as int));
                    assert((w.word)(vb, t) == value(k, c.launch, t, b.0 as int));
                }
            }
        },
        BNode::GeU32(a, b) => {
            let (va, vb) = (vals[a.0 as int]->0, vals[b.0 as int]->0);
            let op = TileOp::Compare {
                result: f.next(),
                kind: CmpOpKind::Ge,
                lhs: va,
                rhs: vb,
            };
            let t0 = TileType {
                dtype: ScalarDType::Bool,
                ..joined_type(f.ty(va), f.ty(vb))
            };
            lemma_single_node(k, i, f, vals, g, t0, op, ty, w, c);
            if given(k, i, f, g, vals, ty, w, c) {
                assert(well_typed(k, k.nodes[i]));
                assert forall|t: u32| t < k.block_size implies (w.word)(v->0, t)
                    == #[trigger] value(k, c.launch, t, i) by {
                    assert(worth_word(op, ty, w, c, t));
                    assert((w.word)(va, t) == value(k, c.launch, t, a.0 as int));
                    assert((w.word)(vb, t) == value(k, c.launch, t, b.0 as int));
                }
            }
        },
        BNode::CmpLtF32(a, b) => {
            let (va, vb) = (vals[a.0 as int]->0, vals[b.0 as int]->0);
            let op = TileOp::Compare {
                result: f.next(),
                kind: CmpOpKind::Lt,
                lhs: va,
                rhs: vb,
            };
            let t0 = TileType {
                dtype: ScalarDType::Bool,
                ..joined_type(f.ty(va), f.ty(vb))
            };
            lemma_single_node(k, i, f, vals, g, t0, op, ty, w, c);
            if given(k, i, f, g, vals, ty, w, c) {
                assert(well_typed(k, k.nodes[i]));
                assert forall|t: u32| t < k.block_size implies (w.word)(v->0, t)
                    == #[trigger] value(k, c.launch, t, i) by {
                    assert(worth_word(op, ty, w, c, t));
                    assert((w.word)(va, t) == value(k, c.launch, t, a.0 as int));
                    assert((w.word)(vb, t) == value(k, c.launch, t, b.0 as int));
                }
            }
        },
        BNode::CmpGtF32(a, b) => {
            let (va, vb) = (vals[a.0 as int]->0, vals[b.0 as int]->0);
            let op = TileOp::Compare {
                result: f.next(),
                kind: CmpOpKind::Lt,
                lhs: vb,
                rhs: va,
            };
            let t0 = TileType {
                dtype: ScalarDType::Bool,
                ..joined_type(f.ty(vb), f.ty(va))
            };
            lemma_single_node(k, i, f, vals, g, t0, op, ty, w, c);
            if given(k, i, f, g, vals, ty, w, c) {
                assert(well_typed(k, k.nodes[i]));
                assert forall|t: u32| t < k.block_size implies (w.word)(v->0, t)
                    == #[trigger] value(k, c.launch, t, i) by {
                    assert(worth_word(op, ty, w, c, t));
                    assert((w.word)(va, t) == value(k, c.launch, t, a.0 as int));
                    assert((w.word)(vb, t) == value(k, c.launch, t, b.0 as int));
                }
            }
        },
        BNode::CmpEqF32(a, b) => {
            let (va, vb) = (vals[a.0 as int]->0, vals[b.0 as int]->0);
            let op = TileOp::Compare {
                result: f.next(),
                kind: CmpOpKind::Eq,
                lhs: va,
                rhs: vb,
            };
            let t0 = TileType {
                dtype: ScalarDType::Bool,
                ..joined_type(f.ty(va), f.ty(vb))
            };
            lemma_single_node(k, i, f, vals, g, t0, op, ty, w, c);
            if given(k, i, f, g, vals, ty, w, c) {
                assert(well_typed(k, k.nodes[i]));
                assert forall|t: u32| t < k.block_size implies (w.word)(v->0, t)
                    == #[trigger] value(k, c.launch, t, i) by {
                    assert(worth_word(op, ty, w, c, t));
                    assert((w.word)(va, t) == value(k, c.launch, t, a.0 as int));
                    assert((w.word)(vb, t) == value(k, c.launch, t, b.0 as int));
                }
            }
        },
        _ => {},
    }
}

/// An operation with a constant.
#[verifier::spinoff_prover]
#[verifier::rlimit(40)]
proof fn lemma_const_node(
    k: BlockState,
    i: int,
    f: FuncState,
    vals: Seq<Option<Value>>,
    g: FuncState,
    v: Option<Value>,
    ty: Seq<TileType>,
    w: Worth,
    c: Call,
)
    requires
        startable(k, i, f, vals),
        node_step(k, f, vals, k.nodes[i]) == Ok::<(FuncState, Option<Value>), Seq<char>>((g, v)),
        k.nodes[i] is ShrConstU32 || k.nodes[i] is ShlConstU32 || k.nodes[i] is AndConstU32
            || k.nodes[i] is OrConstU32 || k.nodes[i] is XorConstU32,
    ensures
        moved(k, i, f, g, v),
        given(k, i, f, g, vals, ty, w, c) ==> kept(k, i, f, g, v, ty, w, c),
{
    reveal(node_step);
    reveal(with_const_step);
    match k.nodes[i] {
        BNode::ShrConstU32(a, x) => {
            let va = vals[a.0 as int]->0;
            let op0 = TileOp::ConstU32 { result: f.next(), value: x as u32 };
            let t0 = scalar_type(ScalarDType::U32);
            let f1 = f.define(t0, op0);
            let op1 = TileOp::Binary {
                result: f1.next(),
                kind: BinOpKind::Shr,
                lhs: va,
                rhs: f.next(),
            };
            let t1 = joined_type(f1.ty(va), f1.ty(f.next()));
            lemma_pair(f, g, t0, op0, t1, op1, ty, w, c);
            if given(k, i, f, g, vals, ty, w, c) {
                assert(well_typed(k, k.nodes[i]));
                assert(g.types[va.0 as int] == f.types[va.0 as int]);
                assert forall|t: u32| t < k.block_size implies (w.word)(v->0, t)
                    == #[trigger] value(k, c.launch, t, i) by {
                    assert(worth_word(op0, ty, w, c, t));
                    assert(worth_word(op1, ty, w, c, t));
                    assert((w.word)(va, t) == value(k, c.launch, t, a.0 as int));
                }
            }
        },
        BNode::ShlConstU32(a, x) => {
            let va = vals[a.0 as int]->0;
            let op0 = TileOp::ConstU32 { result: f.next(), value: x as u32 };
            let t0 = scalar_type(ScalarDType::U32);
            let f1 = f.define(t0, op0);
            let op1 = TileOp::Binary {
                result: f1.next(),
                kind: BinOpKind::Shl,
                lhs: va,
                rhs: f.next(),
            };
            let t1 = joined_type(f1.ty(va), f1.ty(f.next()));
            lemma_pair(f, g, t0, op0, t1, op1, ty, w, c);
            if given(k, i, f, g, vals, ty, w, c) {
                assert(well_typed(k, k.nodes[i]));
                assert(g.types[va.0 as int] == f.types[va.0 as int]);
                assert forall|t: u32| t < k.block_size implies (w.word)(v->0, t)
                    == #[trigger] value(k, c.launch, t, i) by {
                    assert(worth_word(op0, ty, w, c, t));
                    assert(worth_word(op1, ty, w, c, t));
                    assert((w.word)(va, t) == value(k, c.launch, t, a.0 as int));
                }
            }
        },
        BNode::AndConstU32(a, x) => {
            let va = vals[a.0 as int]->0;
            let op0 = TileOp::ConstU32 { result: f.next(), value: x };
            let t0 = scalar_type(ScalarDType::U32);
            let f1 = f.define(t0, op0);
            let op1 = TileOp::Binary {
                result: f1.next(),
                kind: BinOpKind::And,
                lhs: va,
                rhs: f.next(),
            };
            let t1 = joined_type(f1.ty(va), f1.ty(f.next()));
            lemma_pair(f, g, t0, op0, t1, op1, ty, w, c);
            if given(k, i, f, g, vals, ty, w, c) {
                assert(well_typed(k, k.nodes[i]));
                assert(g.types[va.0 as int] == f.types[va.0 as int]);
                assert forall|t: u32| t < k.block_size implies (w.word)(v->0, t)
                    == #[trigger] value(k, c.launch, t, i) by {
                    assert(worth_word(op0, ty, w, c, t));
                    assert(worth_word(op1, ty, w, c, t));
                    assert((w.word)(va, t) == value(k, c.launch, t, a.0 as int));
                }
            }
        },
        BNode::OrConstU32(a, x) => {
            let va = vals[a.0 as int]->0;
            let op0 = TileOp::ConstU32 { result: f.next(), value: x };
            let t0 = scalar_type(ScalarDType::U32);
            let f1 = f.define(t0, op0);
            let op1 = TileOp::Binary {
                result: f1.next(),
                kind: BinOpKind::Or,
                lhs: va,
                rhs: f.next(),
            };
            let t1 = joined_type(f1.ty(va), f1.ty(f.next()));
            lemma_pair(f, g, t0, op0, t1, op1, ty, w, c);
            if given(k, i, f, g, vals, ty, w, c) {
                assert(well_typed(k, k.nodes[i]));
                assert(g.types[va.0 as int] == f.types[va.0 as int]);
                assert forall|t: u32| t < k.block_size implies (w.word)(v->0, t)
                    == #[trigger] value(k, c.launch, t, i) by {
                    assert(worth_word(op0, ty, w, c, t));
                    assert(worth_word(op1, ty, w, c, t));
                    assert((w.word)(va, t) == value(k, c.launch, t, a.0 as int));
                }
            }
        },
        BNode::XorConstU32(a, x) => {
            let va = vals[a.0 as int]->0;
            let op0 = TileOp::ConstU32 { result: f.next(), value: x };
            let t0 = scalar_type(ScalarDType::U32);
            let f1 = f.define(t0, op0);
            let op1 = TileOp::Binary {
                result: f1.next(),
                kind: BinOpKind::Xor,
                lhs: va,
                rhs: f.next(),
            };
            let t1 = joined_type(f1.ty(va), f1.ty(f.next()));
            lemma_pair(f, g, t0, op0, t1, op1, ty, w, c);
            if given(k, i, f, g, vals, ty, w, c) {
                assert(well_typed(k, k.nodes[i]));
                assert(g.types[va.0 as int] == f.types[va.0 as int]);
                assert forall|t: u32| t < k.block_size implies (w.word)(v->0, t)
                    == #[trigger] value(k, c.launch, t, i) by {
                    assert(worth_word(op0, ty, w, c, t));
                    assert(worth_word(op1, ty, w, c, t));
                    assert((w.word)(va, t) == value(k, c.launch, t, a.0 as int));
                }
            }
        },
        _ => {},
    }
}

/// A constant or the number of a workgroup or thread.
#[verifier::spinoff_prover]
#[verifier::rlimit(40)]
proof fn lemma_number_node(
    k: BlockState,
    i: int,
    f: FuncState,
    vals: Seq<Option<Value>>,
    g: FuncState,
    v: Option<Value>,
    ty: Seq<TileType>,
    w: Worth,
    c: Call,
)
    requires
        startable(k, i, f, vals),
        node_step(k, f, vals, k.nodes[i]) == Ok::<(FuncState, Option<Value>), Seq<char>>((g, v)),
        k.nodes[i] is ProgramId || k.nodes[i] is ThreadIdY || k.nodes[i] is ConstU32
            || k.nodes[i] is ConstF32,
    ensures
        moved(k, i, f, g, v),
        given(k, i, f, g, vals, ty, w, c) ==> kept(k, i, f, g, v, ty, w, c),
{
    reveal(node_step);
    reveal(workgroup_step);
    reveal(thread_y_step);
    reveal(word_step);
    reveal(float_step);
    match k.nodes[i] {
        BNode::ProgramId(axis) => {
            let op = TileOp::ProgramId { result: f.next(), axis };
            lemma_single_node(k, i, f, vals, g, scalar_type(ScalarDType::U32), op, ty, w, c);
            if given(k, i, f, g, vals, ty, w, c) {
                assert(well_typed(k, k.nodes[i]));
                assert forall|t: u32| t < k.block_size implies (w.word)(v->0, t)
                    == #[trigger] value(k, c.launch, t, i) by {
                    assert(worth_word(op, ty, w, c, t));
                }
            }
        },
        BNode::ThreadIdY { block_x } => {
            let op = TileOp::ThreadIdY2D { result: f.next(), block_x };
            let u = vector_type(k.block_size, ScalarDType::U32);
            lemma_single_node(k, i, f, vals, g, u, op, ty, w, c);
            if given(k, i, f, g, vals, ty, w, c) {
                assert(well_typed(k, k.nodes[i]));
                assert forall|t: u32| t < k.block_size implies (w.word)(v->0, t)
                    == #[trigger] value(k, c.launch, t, i) by {
                    assert(worth_word(op, ty, w, c, t));
                }
            }
        },
        BNode::ConstU32(x) => {
            let op = TileOp::ConstU32 { result: f.next(), value: x };
            lemma_single_node(k, i, f, vals, g, scalar_type(ScalarDType::U32), op, ty, w, c);
            if given(k, i, f, g, vals, ty, w, c) {
                assert(well_typed(k, k.nodes[i]));
                assert forall|t: u32| t < k.block_size implies (w.word)(v->0, t)
                    == #[trigger] value(k, c.launch, t, i) by {
                    assert(worth_word(op, ty, w, c, t));
                }
            }
        },
        BNode::ConstF32(x) => {
            let op = TileOp::ConstF32 { result: f.next(), bits: x };
            lemma_single_node(k, i, f, vals, g, scalar_type(ScalarDType::F32), op, ty, w, c);
            if given(k, i, f, g, vals, ty, w, c) {
                assert(well_typed(k, k.nodes[i]));
                assert forall|t: u32| t < k.block_size implies (w.word)(v->0, t)
                    == #[trigger] value(k, c.launch, t, i) by {
                    assert(worth_word(op, ty, w, c, t));
                }
            }
        },
        _ => {},
    }
}

/// A part of the local data share, or a word of it.
#[verifier::spinoff_prover]
#[verifier::rlimit(40)]
proof fn lemma_shared_node(
    k: BlockState,
    i: int,
    f: FuncState,
    vals: Seq<Option<Value>>,
    g: FuncState,
    v: Option<Value>,
    ty: Seq<TileType>,
    w: Worth,
    c: Call,
)
    requires
        startable(k, i, f, vals),
        node_step(k, f, vals, k.nodes[i]) == Ok::<(FuncState, Option<Value>), Seq<char>>((g, v)),
        k.nodes[i] is LdsAlloc || k.nodes[i] is LdsLoad,
    ensures
        moved(k, i, f, g, v),
        given(k, i, f, g, vals, ty, w, c) ==> kept(k, i, f, g, v, ty, w, c),
{
    reveal(node_step);
    reveal(lds_space_step);
    reveal(lds_load_step);
    match k.nodes[i] {
        BNode::LdsAlloc { size_bytes } => {
            let op = TileOp::LdsAlloc { result: f.next(), size: size_bytes };
            lemma_single_node(k, i, f, vals, g, scalar_type(ScalarDType::U32), op, ty, w, c);
            if given(k, i, f, g, vals, ty, w, c) {
                assert(well_typed(k, k.nodes[i]));
                assert forall|t: u32| t < k.block_size implies (w.word)(v->0, t)
                    == #[trigger] value(k, c.launch, t, i) by {
                    assert(worth_word(op, ty, w, c, t));
                }
            }
        },
        BNode::LdsLoad { base, offset } => {
            let vbase = vals[base.0 as int]->0;
            let voffset = vals[offset.0 as int]->0;
            let op = TileOp::LdsLoad { result: f.next(), base: vbase, offset: voffset };
            let t0 = TileType { dtype: ScalarDType::F32, ..f.ty(voffset) };
            lemma_single_node(k, i, f, vals, g, t0, op, ty, w, c);
            if given(k, i, f, g, vals, ty, w, c) {
                assert(well_typed(k, k.nodes[i]));
                assert forall|t: u32| t < k.block_size implies (w.word)(v->0, t)
                    == #[trigger] value(k, c.launch, t, i) by {
                    assert(worth_word(op, ty, w, c, t));
                    assert((w.word)(voffset, t) == value(k, c.launch, t, offset.0 as int));
                }
                assert forall|t: u32| t < k.block_size implies #[trigger] effects_of(
                    added_ops(f, g),
                    ty,
                    w,
                    t,
                ) == node_effects(k, c.launch, t, i) by {
                    assert((w.word)(voffset, t) == value(k, c.launch, t, offset.0 as int));
                    assert((w.word)(vbase, t) == value(k, c.launch, t, base.0 as int));
                }
            }
        },
        _ => {},
    }
}

/// A selection, a conversion, or a product and a sum in one.
#[verifier::spinoff_prover]
#[verifier::rlimit(40)]
proof fn lemma_mixed_node(
    k: BlockState,
    i: int,
    f: FuncState,
    vals: Seq<Option<Value>>,
    g: FuncState,
    v: Option<Value>,
    ty: Seq<TileType>,
    w: Worth,
    c: Call,
)
    requires
        startable(k, i, f, vals),
        node_step(k, f, vals, k.nodes[i]) == Ok::<(FuncState, Option<Value>), Seq<char>>((g, v)),
        k.nodes[i] is FmaF32 || k.nodes[i] is Select || k.nodes[i] is CvtF32U32
            || k.nodes[i] is CvtU32F32 || k.nodes[i] is CvtPkBf16F32,
    ensures
        moved(k, i, f, g, v),
        given(k, i, f, g, vals, ty, w, c) ==> kept(k, i, f, g, v, ty, w, c),
{
    reveal(node_step);
    reveal(fused_step);
    reveal(selection_step);
    reveal(conversion_step);
    reveal(packing_step);
    match k.nodes[i] {
        BNode::FmaF32(a, b, d) => {
            let va = vals[a.0 as int]->0;
            let vb = vals[b.0 as int]->0;
            let vd = vals[d.0 as int]->0;
            let op = TileOp::Fma { result: f.next(), a: va, b: vb, c: vd };
            lemma_single_node(k, i, f, vals, g, f.ty(va), op, ty, w, c);
            if given(k, i, f, g, vals, ty, w, c) {
                assert(well_typed(k, k.nodes[i]));
                assert forall|t: u32| t < k.block_size implies (w.word)(v->0, t)
                    == #[trigger] value(k, c.launch, t, i) by {
                    assert(worth_word(op, ty, w, c, t));
                    assert((w.word)(va, t) == value(k, c.launch, t, a.0 as int));
                    assert((w.word)(vb, t) == value(k, c.launch, t, b.0 as int));
                    assert((w.word)(vd, t) == value(k, c.launch, t, d.0 as int));
                }
            }
        },
        BNode::Select { mask, true_val, false_val } => {
            let vmask = vals[mask.0 as int]->0;
            let vtrue_val = vals[true_val.0 as int]->0;
            let vfalse_val = vals[false_val.0 as int]->0;
            let op = TileOp::Select {
                result: f.next(),
                mask: vmask,
                on_true: vtrue_val,
                on_false: vfalse_val,
            };
            lemma_single_node(k, i, f, vals, g, f.ty(vtrue_val), op, ty, w, c);
            if given(k, i, f, g, vals, ty, w, c) {
                assert(well_typed(k, k.nodes[i]));
                assert forall|t: u32| t < k.block_size implies (w.word)(v->0, t)
                    == #[trigger] value(k, c.launch, t, i) by {
                    assert(worth_word(op, ty, w, c, t));
                    assert((w.word)(vmask, t) == value(k, c.launch, t, mask.0 as int));
                    assert((w.word)(vtrue_val, t) == value(k, c.launch, t, true_val.0 as int));
                    assert((w.word)(vfalse_val, t) == value(k, c.launch, t, false_val.0 as int));
                }
            }
        },
        BNode::CvtF32U32(a) => {
            let va = vals[a.0 as int]->0;
            let t0 = TileType { dtype: ScalarDType::F32, ..f.ty(va) };
            let op = TileOp::Cast { result: f.next(), src: va };
            lemma_single_node(k, i, f, vals, g, t0, op, ty, w, c);
            if given(k, i, f, g, vals, ty, w, c) {
                assert(well_typed(k, k.nodes[i]));
                assert forall|t: u32| t < k.block_size implies (w.word)(v->0, t)
                    == #[trigger] value(k, c.launch, t, i) by {
                    assert(worth_word(op, ty, w, c, t));
                    assert((w.word)(va, t) == value(k, c.launch, t, a.0 as int));
                }
            }
        },
        BNode::CvtU32F32(a) => {
            let va = vals[a.0 as int]->0;
            let t0 = TileType { dtype: ScalarDType::U32, ..f.ty(va) };
            let op = TileOp::Cast { result: f.next(), src: va };
            lemma_single_node(k, i, f, vals, g, t0, op, ty, w, c);
            if given(k, i, f, g, vals, ty, w, c) {
                assert(well_typed(k, k.nodes[i]));
                assert forall|t: u32| t < k.block_size implies (w.word)(v->0, t)
                    == #[trigger] value(k, c.launch, t, i) by {
                    assert(worth_word(op, ty, w, c, t));
                    assert((w.word)(va, t) == value(k, c.launch, t, a.0 as int));
                }
            }
        },
        BNode::CvtPkBf16F32 { lo, hi } => {
            let vlo = vals[lo.0 as int]->0;
            let vhi = vals[hi.0 as int]->0;
            let t0 = TileType { dtype: ScalarDType::U32, ..f.ty(vlo) };
            let op = TileOp::CvtPkBf16F32 { result: f.next(), lo: vlo, hi: vhi };
            lemma_single_node(k, i, f, vals, g, t0, op, ty, w, c);
            if given(k, i, f, g, vals, ty, w, c) {
                assert(well_typed(k, k.nodes[i]));
                assert forall|t: u32| t < k.block_size implies (w.word)(v->0, t)
                    == #[trigger] value(k, c.launch, t, i) by {
                    assert(worth_word(op, ty, w, c, t));
                    assert((w.word)(vlo, t) == value(k, c.launch, t, lo.0 as int));
                    assert((w.word)(vhi, t) == value(k, c.launch, t, hi.0 as int));
                }
            }
        },
        _ => {},
    }
}

/// An argument.
#[verifier::spinoff_prover]
#[verifier::rlimit(40)]
proof fn lemma_arg_node(
    k: BlockState,
    i: int,
    f: FuncState,
    vals: Seq<Option<Value>>,
    g: FuncState,
    v: Option<Value>,
    ty: Seq<TileType>,
    w: Worth,
    c: Call,
)
    requires
        startable(k, i, f, vals),
        node_step(k, f, vals, k.nodes[i]) == Ok::<(FuncState, Option<Value>), Seq<char>>((g, v)),
        k.nodes[i] is ArgPtr || k.nodes[i] is ArgU32 || k.nodes[i] is ArgF32,
    ensures
        moved(k, i, f, g, v),
        given(k, i, f, g, vals, ty, w, c) ==> kept(k, i, f, g, v, ty, w, c),
{
    reveal(node_step);
    reveal(argument_step);
    match k.nodes[i] {
        BNode::ArgPtr(name) => {
            let op = TileOp::Arg {
                result: f.next(),
                kind: ScalarDType::Ptr,
                index: f.args.len() as usize,
            };
            lemma_single(f, g, scalar_type(ScalarDType::Ptr), op, ty, w, c);
            if given(k, i, f, g, vals, ty, w, c) {
                assert forall|t: u32| t < k.block_size implies (w.word)(v->0, t)
                    == #[trigger] value(k, c.launch, t, i) by {
                    assert(worth_word(op, ty, w, c, t));
                }
            }
        },
        BNode::ArgU32(name) => {
            let op = TileOp::Arg {
                result: f.next(),
                kind: ScalarDType::U32,
                index: f.args.len() as usize,
            };
            lemma_single(f, g, scalar_type(ScalarDType::U32), op, ty, w, c);
            if given(k, i, f, g, vals, ty, w, c) {
                assert forall|t: u32| t < k.block_size implies (w.word)(v->0, t)
                    == #[trigger] value(k, c.launch, t, i) by {
                    assert(worth_word(op, ty, w, c, t));
                }
            }
        },
        BNode::ArgF32(name) => {
            let op = TileOp::Arg {
                result: f.next(),
                kind: ScalarDType::F32,
                index: f.args.len() as usize,
            };
            lemma_single(f, g, scalar_type(ScalarDType::F32), op, ty, w, c);
            if given(k, i, f, g, vals, ty, w, c) {
                assert forall|t: u32| t < k.block_size implies (w.word)(v->0, t)
                    == #[trigger] value(k, c.launch, t, i) by {
                    assert(worth_word(op, ty, w, c, t));
                }
            }
        },
        _ => {},
    }
}

/// The numbers of threads.
#[verifier::spinoff_prover]
#[verifier::rlimit(60)]
proof fn lemma_range_node(
    k: BlockState,
    i: int,
    f: FuncState,
    vals: Seq<Option<Value>>,
    g: FuncState,
    v: Option<Value>,
    ty: Seq<TileType>,
    w: Worth,
    c: Call,
)
    requires
        startable(k, i, f, vals),
        node_step(k, f, vals, k.nodes[i]) == Ok::<(FuncState, Option<Value>), Seq<char>>((g, v)),
        k.nodes[i] is ThreadId || k.nodes[i] is Arange,
    ensures
        moved(k, i, f, g, v),
        given(k, i, f, g, vals, ty, w, c) ==> kept(k, i, f, g, v, ty, w, c),
{
    reveal(node_step);
    reveal(thread_x_step);
    reveal(range_step);
    reveal(shifted_range_step);
    match k.nodes[i] {
        BNode::ThreadId => {
            let (op, t0) = if k.block_y > 1 {
                (
                    TileOp::ThreadIdX2D { result: f.next(), block_x: k.block_x },
                    vector_type(k.block_size, ScalarDType::U32),
                )
            } else {
                (
                    TileOp::Arange { result: f.next(), start: 0, end: k.block_size },
                    vector_type((k.block_size - 0) as u32, ScalarDType::U32),
                )
            };
            lemma_single_node(k, i, f, vals, g, t0, op, ty, w, c);
            if given(k, i, f, g, vals, ty, w, c) {
                assert forall|t: u32| t < k.block_size implies (w.word)(v->0, t)
                    == #[trigger] value(k, c.launch, t, i) by {
                    assert(worth_word(op, ty, w, c, t));
                    if k.block_y <= 1 {
                        assert(t as int % k.block_x as int == t) by (nonlinear_arith)
                            requires
                                0 <= t < k.block_x,
                        ;
                    }
                }
            }
        },
        BNode::Arange { start, end } => {
            if start == 0 {
                let op = TileOp::Arange { result: f.next(), start: 0, end };
                let t0 = vector_type((end - 0) as u32, ScalarDType::U32);
                lemma_single_node(k, i, f, vals, g, t0, op, ty, w, c);
                if given(k, i, f, g, vals, ty, w, c) {
                    assert forall|t: u32| t < k.block_size implies (w.word)(v->0, t)
                        == #[trigger] value(k, c.launch, t, i) by {
                        assert(worth_word(op, ty, w, c, t));
                    }
                }
            } else {
                let len = (end - start) as u32;
                let op0 = TileOp::Arange { result: f.next(), start: 0, end: len };
                let t0 = vector_type((len - 0) as u32, ScalarDType::U32);
                let f1 = f.define(t0, op0);
                let op1 = TileOp::ConstU32 { result: f1.next(), value: start };
                let t1 = scalar_type(ScalarDType::U32);
                let f2 = f1.define(t1, op1);
                let op2 = TileOp::Binary {
                    result: f2.next(),
                    kind: BinOpKind::Add,
                    lhs: f.next(),
                    rhs: f1.next(),
                };
                let t2 = joined_type(f2.ty(f.next()), f2.ty(f1.next()));
                lemma_start(f);
                lemma_define(f, f, Seq::empty(), Seq::empty(), t0, op0);
                lemma_define(f, f1, Seq::empty().push(op0), Seq::empty().push(t0), t1, op1);
                let ops = Seq::empty().push(op0).push(op1).push(op2);
                let tys = Seq::empty().push(t0).push(t1).push(t2);
                lemma_define(
                    f,
                    f2,
                    Seq::empty().push(op0).push(op1),
                    Seq::empty().push(t0).push(t1),
                    t2,
                    op2,
                );
                lemma_grown(f, g, ops, tys);
                if given(k, i, f, g, vals, ty, w, c) {
                    lemma_says(f, g, ops, tys, 0, ty, w, c);
                    lemma_says(f, g, ops, tys, 1, ty, w, c);
                    lemma_says(f, g, ops, tys, 2, ty, w, c);
                    assert(ops[0] == op0 && ops[1] == op1 && ops[2] == op2);
                    let n = f.types.len() as int;
                    assert(g.types[n] == t0 && g.types[n + 1] == t1 && g.types[n + 2] == t2);
                    assert forall|t: u32| t < k.block_size implies (w.word)(v->0, t)
                        == #[trigger] value(k, c.launch, t, i) by {
                        assert(worth_word(op0, ty, w, c, t));
                        assert(worth_word(op1, ty, w, c, t));
                        assert(worth_word(op2, ty, w, c, t));
                    }
                    assert forall|t: u32| t < k.block_size implies #[trigger] effects_of(
                        added_ops(f, g),
                        ty,
                        w,
                        t,
                    ) == node_effects(k, c.launch, t, i) by {
                        lemma_silent(ops, ty, w, t);
                    }
                }
            }
        },
        _ => {},
    }
}

/// A load of words.
#[verifier::spinoff_prover]
#[verifier::rlimit(40)]
proof fn lemma_load_node(
    k: BlockState,
    i: int,
    f: FuncState,
    vals: Seq<Option<Value>>,
    g: FuncState,
    v: Option<Value>,
    ty: Seq<TileType>,
    w: Worth,
    c: Call,
)
    requires
        startable(k, i, f, vals),
        node_step(k, f, vals, k.nodes[i]) == Ok::<(FuncState, Option<Value>), Seq<char>>((g, v)),
        k.nodes[i] is Load || k.nodes[i] is LoadU32,
    ensures
        moved(k, i, f, g, v),
        given(k, i, f, g, vals, ty, w, c) ==> kept(k, i, f, g, v, ty, w, c),
{
    reveal(node_step);
    reveal(float_load_step);
    reveal(word_load_step);
    match k.nodes[i] {
        BNode::Load { ptr, offsets, mask } => {
            let vptr = vals[ptr.0 as int]->0;
            let voffsets = vals[offsets.0 as int]->0;
            let vmask = vals[mask.0 as int]->0;
            let op0 = TileOp::ConstF32 { result: f.next(), bits: 0 };
            let t0 = scalar_type(ScalarDType::F32);
            let f1 = f.define(t0, op0);
            let op1 = TileOp::Load {
                result: f1.next(),
                ptr: vptr,
                index: voffsets,
                mask: vmask,
                other: f.next(),
            };
            let t1 = TileType { dtype: ScalarDType::F32, ..f1.ty(voffsets) };
            lemma_pair(f, g, t0, op0, t1, op1, ty, w, c);
            if given(k, i, f, g, vals, ty, w, c) {
                assert(well_typed(k, k.nodes[i]));
                assert forall|t: u32| t < k.block_size implies (w.word)(v->0, t)
                    == #[trigger] value(k, c.launch, t, i) by {
                    assert(worth_word(op0, ty, w, c, t));
                    assert(worth_word(op1, ty, w, c, t));
                    assert((w.word)(vptr, t) == value(k, c.launch, t, ptr.0 as int));
                    assert((w.word)(voffsets, t) == value(k, c.launch, t, offsets.0 as int));
                    assert((w.word)(vmask, t) == value(k, c.launch, t, mask.0 as int));
                }
            }
        },
        BNode::LoadU32 { ptr, offsets, mask } => {
            let vptr = vals[ptr.0 as int]->0;
            let voffsets = vals[offsets.0 as int]->0;
            let vmask = vals[mask.0 as int]->0;
            let op0 = TileOp::ConstU32 { result: f.next(), value: 0 };
            let t0 = scalar_type(ScalarDType::U32);
            let f1 = f.define(t0, op0);
            let op1 = TileOp::Load {
                result: f1.next(),
                ptr: vptr,
                index: voffsets,
                mask: vmask,
                other: f.next(),
            };
            let t1 = TileType { dtype: ScalarDType::U32, ..f1.ty(voffsets) };
            lemma_pair(f, g, t0, op0, t1, op1, ty, w, c);
            if given(k, i, f, g, vals, ty, w, c) {
                assert(well_typed(k, k.nodes[i]));
                assert forall|t: u32| t < k.block_size implies (w.word)(v->0, t)
                    == #[trigger] value(k, c.launch, t, i) by {
                    assert(worth_word(op0, ty, w, c, t));
                    assert(worth_word(op1, ty, w, c, t));
                    assert((w.word)(vptr, t) == value(k, c.launch, t, ptr.0 as int));
                    assert((w.word)(voffsets, t) == value(k, c.launch, t, offsets.0 as int));
                    assert((w.word)(vmask, t) == value(k, c.launch, t, mask.0 as int));
                }
            }
        },
        _ => {},
    }
}

/// Halves of words moved up are bf16 values as floats.
proof fn lemma_widened(x: u32)
    ensures
        x << 16u32 == widened((x % 0x1_0000) as u16),
        0u32 << 16u32 == 0,
{
    assert(x << 16u32 == (x % 0x1_0000u32) * 0x1_0000u32) by (bit_vector);
    assert(0u32 << 16u32 == 0) by (bit_vector);
}

/// A bf16 as a float.
#[verifier::spinoff_prover]
#[verifier::rlimit(40)]
proof fn lemma_widening_node(
    k: BlockState,
    i: int,
    f: FuncState,
    vals: Seq<Option<Value>>,
    g: FuncState,
    v: Option<Value>,
    ty: Seq<TileType>,
    w: Worth,
    c: Call,
)
    requires
        startable(k, i, f, vals),
        node_step(k, f, vals, k.nodes[i]) == Ok::<(FuncState, Option<Value>), Seq<char>>((g, v)),
        k.nodes[i] is CvtF32BF16,
    ensures
        moved(k, i, f, g, v),
        given(k, i, f, g, vals, ty, w, c) ==> kept(k, i, f, g, v, ty, w, c),
{
    reveal(node_step);
    reveal(widening_step);
    match k.nodes[i] {
        BNode::CvtF32BF16(a) => {
            let va = vals[a.0 as int]->0;
            let op0 = TileOp::ConstU32 { result: f.next(), value: 16 };
            let t0 = scalar_type(ScalarDType::U32);
            let f1 = f.define(t0, op0);
            let op1 = TileOp::Binary {
                result: f1.next(),
                kind: BinOpKind::Shl,
                lhs: va,
                rhs: f.next(),
            };
            let t1 = TileType {
                dtype: ScalarDType::F32,
                ..joined_type(f1.ty(va), f1.ty(f.next()))
            };
            lemma_pair(f, g, t0, op0, t1, op1, ty, w, c);
            if given(k, i, f, g, vals, ty, w, c) {
                assert(well_typed(k, k.nodes[i]));
                assert forall|t: u32| t < k.block_size implies (w.word)(v->0, t)
                    == #[trigger] value(k, c.launch, t, i) by {
                    assert(worth_word(op0, ty, w, c, t));
                    assert(worth_word(op1, ty, w, c, t));
                    assert((w.word)(va, t) == value(k, c.launch, t, a.0 as int));
                    lemma_widened((w.word)(va, t));
                }
            }
        },
        _ => {},
    }
}

/// A load of bf16 values.
#[verifier::spinoff_prover]
#[verifier::rlimit(60)]
proof fn lemma_bf16_load_node(
    k: BlockState,
    i: int,
    f: FuncState,
    vals: Seq<Option<Value>>,
    g: FuncState,
    v: Option<Value>,
    ty: Seq<TileType>,
    w: Worth,
    c: Call,
)
    requires
        startable(k, i, f, vals),
        node_step(k, f, vals, k.nodes[i]) == Ok::<(FuncState, Option<Value>), Seq<char>>((g, v)),
        k.nodes[i] is LoadBf16,
    ensures
        moved(k, i, f, g, v),
        given(k, i, f, g, vals, ty, w, c) ==> kept(k, i, f, g, v, ty, w, c),
{
    reveal(node_step);
    reveal(bf16_load_step);
    match k.nodes[i] {
        BNode::LoadBf16 { ptr, offsets, mask } => {
            let vptr = vals[ptr.0 as int]->0;
            let voffsets = vals[offsets.0 as int]->0;
            let vmask = vals[mask.0 as int]->0;
            let op0 = TileOp::ConstU32 { result: f.next(), value: 0 };
            let t0 = scalar_type(ScalarDType::U32);
            let f1 = f.define(t0, op0);
            let op1 = TileOp::Load {
                result: f1.next(),
                ptr: vptr,
                index: voffsets,
                mask: vmask,
                other: f.next(),
            };
            let t1 = TileType { dtype: ScalarDType::BF16, ..f1.ty(voffsets) };
            let f2 = f1.define(t1, op1);
            let op2 = TileOp::ConstU32 { result: f2.next(), value: 16 };
            let f3 = f2.define(t0, op2);
            let op3 = TileOp::Binary {
                result: f3.next(),
                kind: BinOpKind::Shl,
                lhs: f1.next(),
                rhs: f2.next(),
            };
            let t3 = TileType {
                dtype: ScalarDType::F32,
                ..joined_type(f3.ty(f1.next()), f3.ty(f2.next()))
            };
            let e = Seq::<TileOp>::empty();
            let d = Seq::<TileType>::empty();
            lemma_start(f);
            lemma_define(f, f, e, d, t0, op0);
            lemma_define(f, f1, e.push(op0), d.push(t0), t1, op1);
            lemma_define(f, f2, e.push(op0).push(op1), d.push(t0).push(t1), t0, op2);
            lemma_define(
                f,
                f3,
                e.push(op0).push(op1).push(op2),
                d.push(t0).push(t1).push(t0),
                t3,
                op3,
            );
            let ops = e.push(op0).push(op1).push(op2).push(op3);
            let tys = d.push(t0).push(t1).push(t0).push(t3);
            lemma_grown(f, g, ops, tys);
            if given(k, i, f, g, vals, ty, w, c) {
                lemma_says(f, g, ops, tys, 0, ty, w, c);
                lemma_says(f, g, ops, tys, 1, ty, w, c);
                lemma_says(f, g, ops, tys, 2, ty, w, c);
                lemma_says(f, g, ops, tys, 3, ty, w, c);
                assert(ops[0] == op0 && ops[1] == op1 && ops[2] == op2 && ops[3] == op3);
                let n = f.types.len() as int;
                assert(g.types[n] == t0 && g.types[n + 1] == t1 && g.types[n + 3] == t3);
                assert(well_typed(k, k.nodes[i]));
                assert forall|t: u32| t < k.block_size implies (w.word)(v->0, t)
                    == #[trigger] value(k, c.launch, t, i) by {
                    assert(worth_word(op0, ty, w, c, t));
                    assert(worth_word(op1, ty, w, c, t));
                    assert(worth_word(op2, ty, w, c, t));
                    assert(worth_word(op3, ty, w, c, t));
                    assert((w.word)(vptr, t) == value(k, c.launch, t, ptr.0 as int));
                    assert((w.word)(voffsets, t) == value(k, c.launch, t, offsets.0 as int));
                    assert((w.word)(vmask, t) == value(k, c.launch, t, mask.0 as int));
                    lemma_widened((w.word)(f1.next(), t));
                }
                assert forall|t: u32| t < k.block_size implies #[trigger] effects_of(
                    added_ops(f, g),
                    ty,
                    w,
                    t,
                ) == node_effects(k, c.launch, t, i) by {
                    lemma_silent(ops, ty, w, t);
                }
            }
        },
        _ => {},
    }
}

/// A wave of whole waves lies in the workgroup.
proof fn lemma_wave_lane(k: BlockState, t: u32, j: int)
    requires
        k.block_size % 32 == 0,
        t < k.block_size,
        0 <= j < 32,
    ensures
        wave_lane(t, j) < k.block_size,
        wave_lane(t, j) == 32 * (t / 32) + j,
{
}

/// A reduction over a wave.
#[verifier::spinoff_prover]
#[verifier::rlimit(40)]
proof fn lemma_wave_node(
    k: BlockState,
    i: int,
    f: FuncState,
    vals: Seq<Option<Value>>,
    g: FuncState,
    v: Option<Value>,
    ty: Seq<TileType>,
    w: Worth,
    c: Call,
)
    requires
        startable(k, i, f, vals),
        node_step(k, f, vals, k.nodes[i]) == Ok::<(FuncState, Option<Value>), Seq<char>>((g, v)),
        k.nodes[i] is WaveReduceAddF32 || k.nodes[i] is WaveReduceMaxF32,
    ensures
        moved(k, i, f, g, v),
        given(k, i, f, g, vals, ty, w, c) ==> kept(k, i, f, g, v, ty, w, c),
{
    reveal(node_step);
    reveal(wave_reduce_step);
    match k.nodes[i] {
        BNode::WaveReduceAddF32(a) => {
            let va = vals[a.0 as int]->0;
            let op = TileOp::Reduce { result: f.next(), kind: ReduceKind::Add, src: va };
            lemma_single_node(k, i, f, vals, g, f.ty(va), op, ty, w, c);
            if given(k, i, f, g, vals, ty, w, c) {
                assert(well_typed(k, k.nodes[i]));
                assert(joins_lanes(k.nodes[i]));
                assert forall|t: u32| t < k.block_size implies (w.word)(v->0, t)
                    == #[trigger] value(k, c.launch, t, i) by {
                    assert(worth_word(op, ty, w, c, t));
                    let xs = wave_of(w, va, t);
                    let ys = wave_values(k, c.launch, t, i, a);
                    assert forall|j: int| 0 <= j < 32 implies #[trigger] xs[j] == ys[j] by {
                        lemma_wave_lane(k, t, j);
                        let u = wave_lane(t, j);
                        assert((w.word)(va, u) == value(k, c.launch, u, a.0 as int));
                    }
                    assert(xs =~= ys);
                }
            }
        },
        BNode::WaveReduceMaxF32(a) => {
            let va = vals[a.0 as int]->0;
            let op = TileOp::Reduce { result: f.next(), kind: ReduceKind::Max, src: va };
            lemma_single_node(k, i, f, vals, g, f.ty(va), op, ty, w, c);
            if given(k, i, f, g, vals, ty, w, c) {
                assert(well_typed(k, k.nodes[i]));
                assert(joins_lanes(k.nodes[i]));
                assert forall|t: u32| t < k.block_size implies (w.word)(v->0, t)
                    == #[trigger] value(k, c.launch, t, i) by {
                    assert(worth_word(op, ty, w, c, t));
                    let xs = wave_of(w, va, t);
                    let ys = wave_values(k, c.launch, t, i, a);
                    assert forall|j: int| 0 <= j < 32 implies #[trigger] xs[j] == ys[j] by {
                        lemma_wave_lane(k, t, j);
                        let u = wave_lane(t, j);
                        assert((w.word)(va, u) == value(k, c.launch, u, a.0 as int));
                    }
                    assert(xs =~= ys);
                }
            }
        },
        _ => {},
    }
}

/// A reduction over a workgroup.
#[verifier::spinoff_prover]
#[verifier::rlimit(40)]
proof fn lemma_group_node(
    k: BlockState,
    i: int,
    f: FuncState,
    vals: Seq<Option<Value>>,
    g: FuncState,
    v: Option<Value>,
    ty: Seq<TileType>,
    w: Worth,
    c: Call,
)
    requires
        startable(k, i, f, vals),
        node_step(k, f, vals, k.nodes[i]) == Ok::<(FuncState, Option<Value>), Seq<char>>((g, v)),
        k.nodes[i] is WgReduceAddF32 || k.nodes[i] is WgReduceMaxF32
            || k.nodes[i] is WgReduceMinF32,
    ensures
        moved(k, i, f, g, v),
        given(k, i, f, g, vals, ty, w, c) ==> kept(k, i, f, g, v, ty, w, c),
{
    reveal(node_step);
    reveal(wg_reduce_step);
    match k.nodes[i] {
        BNode::WgReduceAddF32(a) => {
            let va = vals[a.0 as int]->0;
            let op = TileOp::WgReduce {
                result: f.next(),
                kind: ReduceKind::Add,
                src: va,
                block_size: k.block_size,
            };
            lemma_single_node(k, i, f, vals, g, f.ty(va), op, ty, w, c);
            if given(k, i, f, g, vals, ty, w, c) {
                assert(well_typed(k, k.nodes[i]));
                assert forall|t: u32| t < k.block_size implies (w.word)(v->0, t)
                    == #[trigger] value(k, c.launch, t, i) by {
                    assert(worth_word(op, ty, w, c, t));
                    let xs = group_of(w, va, k.block_size);
                    let ys = group_values(k, c.launch, i, a);
                    assert forall|u: int| 0 <= u < k.block_size implies #[trigger] xs[u]
                        == ys[u] by {
                        assert((w.word)(va, u as u32) == value(
                            k,
                            c.launch,
                            u as u32,
                            a.0 as int,
                        ));
                    }
                    assert(xs =~= ys);
                }
            }
        },
        BNode::WgReduceMaxF32(a) => {
            let va = vals[a.0 as int]->0;
            let op = TileOp::WgReduce {
                result: f.next(),
                kind: ReduceKind::Max,
                src: va,
                block_size: k.block_size,
            };
            lemma_single_node(k, i, f, vals, g, f.ty(va), op, ty, w, c);
            if given(k, i, f, g, vals, ty, w, c) {
                assert(well_typed(k, k.nodes[i]));
                assert forall|t: u32| t < k.block_size implies (w.word)(v->0, t)
                    == #[trigger] value(k, c.launch, t, i) by {
                    assert(worth_word(op, ty, w, c, t));
                    let xs = group_of(w, va, k.block_size);
                    let ys = group_values(k, c.launch, i, a);
                    assert forall|u: int| 0 <= u < k.block_size implies #[trigger] xs[u]
                        == ys[u] by {
                        assert((w.word)(va, u as u32) == value(
                            k,
                            c.launch,
                            u as u32,
                            a.0 as int,
                        ));
                    }
                    assert(xs =~= ys);
                }
            }
        },
        BNode::WgReduceMinF32(a) => {
            let va = vals[a.0 as int]->0;
            let op = TileOp::WgReduce {
                result: f.next(),
                kind: ReduceKind::Min,
                src: va,
                block_size: k.block_size,
            };
            lemma_single_node(k, i, f, vals, g, f.ty(va), op, ty, w, c);
            if given(k, i, f, g, vals, ty, w, c) {
                assert(well_typed(k, k.nodes[i]));
                assert forall|t: u32| t < k.block_size implies (w.word)(v->0, t)
                    == #[trigger] value(k, c.launch, t, i) by {
                    assert(worth_word(op, ty, w, c, t));
                    let xs = group_of(w, va, k.block_size);
                    let ys = group_values(k, c.launch, i, a);
                    assert forall|u: int| 0 <= u < k.block_size implies #[trigger] xs[u]
                        == ys[u] by {
                        assert((w.word)(va, u as u32) == value(
                            k,
                            c.launch,
                            u as u32,
                            a.0 as int,
                        ));
                    }
                    assert(xs =~= ys);
                }
            }
        },
        _ => {},
    }
}

/// The matrix registers of an operand in all lanes of a wave.
proof fn lemma_wave_words(
    k: BlockState,
    i: int,
    vals: Seq<Option<Value>>,
    a: BVal,
    ty: Seq<TileType>,
    w: Worth,
    c: Call,
    t: u32,
)
    requires
        known(k, i, vals, ty, w, c),
        a.0 < i <= k.nodes.len(),
        frame_at(k, a),
        k.block_size % 32 == 0,
        t < k.block_size,
    ensures
        wave_words(w, vals[a.0 as int]->0, t) == wave_fragments(k, c.launch, t, i, a),
{
    let xs = wave_words(w, vals[a.0 as int]->0, t);
    let ys = wave_fragments(k, c.launch, t, i, a);
    assert forall|j: int| 0 <= j < 32 implies #[trigger] xs[j] == ys[j] by {
        lemma_wave_lane(k, t, j);
        let u = wave_lane(t, j);
        assert((w.words)(vals[a.0 as int]->0, u) == fragment(k, c.launch, u, a.0 as int));
    }
    assert(xs =~= ys);
}

/// Matrix registers.
#[verifier::spinoff_prover]
#[verifier::rlimit(40)]
proof fn lemma_frame_node(
    k: BlockState,
    i: int,
    f: FuncState,
    vals: Seq<Option<Value>>,
    g: FuncState,
    v: Option<Value>,
    ty: Seq<TileType>,
    w: Worth,
    c: Call,
)
    requires
        startable(k, i, f, vals),
        node_step(k, f, vals, k.nodes[i]) == Ok::<(FuncState, Option<Value>), Seq<char>>((g, v)),
        k.nodes[i] is ZeroAcc || k.nodes[i] is SplatFragment || k.nodes[i] is Wmma
            || k.nodes[i] is ExtractF32,
    ensures
        moved(k, i, f, g, v),
        given(k, i, f, g, vals, ty, w, c) ==> kept(k, i, f, g, v, ty, w, c),
{
    reveal(node_step);
    reveal(zero_sums_step);
    reveal(fragment_step);
    reveal(matrix_product_step);
    reveal(extraction_step);
    match k.nodes[i] {
        BNode::ZeroAcc => {
            let op = TileOp::ZeroAcc { result: f.next() };
            lemma_single_node(k, i, f, vals, g, vector_type(8, ScalarDType::F32), op, ty, w, c);
            if given(k, i, f, g, vals, ty, w, c) {
                assert forall|t: u32| t < k.block_size implies (w.words)(v->0, t)
                    == #[trigger] fragment(k, c.launch, t, i) by {
                    assert(worth_words(op, w, c, t));
                    assert((w.words)(v->0, t) =~= fragment(k, c.launch, t, i));
                }
            }
        },
        BNode::SplatFragment(a) => {
            let va = vals[a.0 as int]->0;
            let op = TileOp::SplatFragment { result: f.next(), src: va };
            lemma_single_node(k, i, f, vals, g, vector_type(8, ScalarDType::U32), op, ty, w, c);
            if given(k, i, f, g, vals, ty, w, c) {
                assert(well_typed(k, k.nodes[i]));
                assert forall|t: u32| t < k.block_size implies (w.words)(v->0, t)
                    == #[trigger] fragment(k, c.launch, t, i) by {
                    assert(worth_words(op, w, c, t));
                    assert((w.word)(va, t) == value(k, c.launch, t, a.0 as int));
                    assert((w.words)(v->0, t) =~= fragment(k, c.launch, t, i));
                }
            }
        },
        BNode::Wmma { a, b, c: sum } => {
            let va = vals[a.0 as int]->0;
            let vb = vals[b.0 as int]->0;
            let vs = vals[sum.0 as int]->0;
            let op = TileOp::Wmma { result: f.next(), a: va, b: vb, c: vs };
            lemma_single_node(k, i, f, vals, g, f.ty(vs), op, ty, w, c);
            if given(k, i, f, g, vals, ty, w, c) {
                assert(well_typed(k, k.nodes[i]));
                assert(joins_lanes(k.nodes[i]));
                assert forall|t: u32| t < k.block_size implies (w.words)(v->0, t)
                    == #[trigger] fragment(k, c.launch, t, i) by {
                    assert(worth_words(op, w, c, t));
                    lemma_wave_words(k, i, vals, a, ty, w, c, t);
                    lemma_wave_words(k, i, vals, b, ty, w, c, t);
                    lemma_wave_words(k, i, vals, sum, ty, w, c, t);
                }
            }
        },
        BNode::ExtractF32 { src, idx } => {
            let vs = vals[src.0 as int]->0;
            let op = TileOp::ExtractF32 { result: f.next(), src: vs, idx };
            lemma_single_node(k, i, f, vals, g, scalar_type(ScalarDType::F32), op, ty, w, c);
            if given(k, i, f, g, vals, ty, w, c) {
                assert(well_typed(k, k.nodes[i]));
                assert forall|t: u32| t < k.block_size implies (w.word)(v->0, t)
                    == #[trigger] value(k, c.launch, t, i) by {
                    assert(worth_word(op, ty, w, c, t));
                    assert((w.words)(vs, t) == fragment(k, c.launch, t, src.0 as int));
                }
            }
        },
        _ => {},
    }
}

/// A store or a barrier.
#[verifier::spinoff_prover]
#[verifier::rlimit(40)]
proof fn lemma_store_node(
    k: BlockState,
    i: int,
    f: FuncState,
    vals: Seq<Option<Value>>,
    g: FuncState,
    v: Option<Value>,
    ty: Seq<TileType>,
    w: Worth,
    c: Call,
)
    requires
        startable(k, i, f, vals),
        node_step(k, f, vals, k.nodes[i]) == Ok::<(FuncState, Option<Value>), Seq<char>>((g, v)),
        k.nodes[i] is Store || k.nodes[i] is AtomicAddF32 || k.nodes[i] is LdsStore
            || k.nodes[i] is Barrier,
    ensures
        moved(k, i, f, g, v),
        given(k, i, f, g, vals, ty, w, c) ==> kept(k, i, f, g, v, ty, w, c),
{
    reveal(node_step);
    reveal(store_step);
    reveal(atomic_add_step);
    reveal(lds_store_step);
    reveal(plain_step);
    match k.nodes[i] {
        BNode::Store { ptr, offsets, val, mask } => {
            let (vp, vo) = (vals[ptr.0 as int]->0, vals[offsets.0 as int]->0);
            let (vv, vm) = (vals[val.0 as int]->0, vals[mask.0 as int]->0);
            let op = TileOp::Store { ptr: vp, index: vo, value: vv, mask: vm };
            lemma_plain_op(f, g, op, ty, w);
            if given(k, i, f, g, vals, ty, w, c) {
                assert(well_typed(k, k.nodes[i]));
                assert forall|t: u32| t < k.block_size implies #[trigger] effects_of(
                    added_ops(f, g),
                    ty,
                    w,
                    t,
                ) == node_effects(k, c.launch, t, i) by {
                    assert((w.word)(vp, t) == value(k, c.launch, t, ptr.0 as int));
                    assert((w.word)(vo, t) == value(k, c.launch, t, offsets.0 as int));
                    assert((w.word)(vv, t) == value(k, c.launch, t, val.0 as int));
                    assert((w.word)(vm, t) == value(k, c.launch, t, mask.0 as int));
                    assert(dtype_fits(k.nodes[val.0 as int], ty[vv.0 as int].dtype));
                }
            }
        },
        BNode::AtomicAddF32 { ptr, offsets, val, mask } => {
            let (vp, vo) = (vals[ptr.0 as int]->0, vals[offsets.0 as int]->0);
            let (vv, vm) = (vals[val.0 as int]->0, vals[mask.0 as int]->0);
            let op = TileOp::AtomicAddF32 { ptr: vp, index: vo, value: vv, mask: vm };
            lemma_plain_op(f, g, op, ty, w);
            if given(k, i, f, g, vals, ty, w, c) {
                assert(well_typed(k, k.nodes[i]));
                assert forall|t: u32| t < k.block_size implies #[trigger] effects_of(
                    added_ops(f, g),
                    ty,
                    w,
                    t,
                ) == node_effects(k, c.launch, t, i) by {
                    assert((w.word)(vp, t) == value(k, c.launch, t, ptr.0 as int));
                    assert((w.word)(vo, t) == value(k, c.launch, t, offsets.0 as int));
                    assert((w.word)(vv, t) == value(k, c.launch, t, val.0 as int));
                    assert((w.word)(vm, t) == value(k, c.launch, t, mask.0 as int));
                }
            }
        },
        BNode::LdsStore { base, offset, val } => {
            let (vb, vo) = (vals[base.0 as int]->0, vals[offset.0 as int]->0);
            let vv = vals[val.0 as int]->0;
            let op = TileOp::LdsStore { base: vb, offset: vo, value: vv };
            lemma_plain_op(f, g, op, ty, w);
            if given(k, i, f, g, vals, ty, w, c) {
                assert(well_typed(k, k.nodes[i]));
                assert forall|t: u32| t < k.block_size implies #[trigger] effects_of(
                    added_ops(f, g),
                    ty,
                    w,
                    t,
                ) == node_effects(k, c.launch, t, i) by {
                    assert((w.word)(vb, t) == value(k, c.launch, t, base.0 as int));
                    assert((w.word)(vo, t) == value(k, c.launch, t, offset.0 as int));
                    assert((w.word)(vv, t) == value(k, c.launch, t, val.0 as int));
                }
            }
        },
        BNode::Barrier => {
            lemma_plain_op(f, g, TileOp::Barrier, ty, w);
        },
        _ => {},
    }
}

/// A store of bf16 values.
#[verifier::spinoff_prover]
#[verifier::rlimit(40)]
proof fn lemma_bf16_store_node(
    k: BlockState,
    i: int,
    f: FuncState,
    vals: Seq<Option<Value>>,
    g: FuncState,
    v: Option<Value>,
    ty: Seq<TileType>,
    w: Worth,
    c: Call,
)
    requires
        startable(k, i, f, vals),
        node_step(k, f, vals, k.nodes[i]) == Ok::<(FuncState, Option<Value>), Seq<char>>((g, v)),
        k.nodes[i] is StoreBf16,
    ensures
        moved(k, i, f, g, v),
        given(k, i, f, g, vals, ty, w, c) ==> kept(k, i, f, g, v, ty, w, c),
{
    reveal(node_step);
    reveal(bf16_store_step);
    match k.nodes[i] {
        BNode::StoreBf16 { ptr, offsets, val, mask } => {
            let (vp, vo) = (vals[ptr.0 as int]->0, vals[offsets.0 as int]->0);
            let (vv, vm) = (vals[val.0 as int]->0, vals[mask.0 as int]->0);
            let op0 = TileOp::Cast { result: f.next(), src: vv };
            let t0 = TileType { dtype: ScalarDType::BF16, ..f.ty(vv) };
            let f1 = f.define(t0, op0);
            let op1 = TileOp::Store { ptr: vp, index: vo, value: f.next(), mask: vm };
            let e = Seq::<TileOp>::empty();
            let d = Seq::<TileType>::empty();
            lemma_start(f);
            lemma_define(f, f, e, d, t0, op0);
            lemma_with_op(f, f1, e.push(op0), d.push(t0), op1);
            let ops = e.push(op0).push(op1);
            let tys = d.push(t0);
            lemma_grown(f, g, ops, tys);
            if given(k, i, f, g, vals, ty, w, c) {
                lemma_says(f, g, ops, tys, 0, ty, w, c);
                assert(ops[0] == op0);
                assert(g.types[f.types.len() as int] == t0);
                assert(g.types[vv.0 as int] == f.types[vv.0 as int]);
                assert(well_typed(k, k.nodes[i]));
                assert forall|t: u32| t < k.block_size implies #[trigger] effects_of(
                    added_ops(f, g),
                    ty,
                    w,
                    t,
                ) == node_effects(k, c.launch, t, i) by {
                    lemma_effects_push(e, op0, ty, w, t);
                    lemma_effects_push(e.push(op0), op1, ty, w, t);
                    assert(effects_of(e, ty, w, t) =~= Seq::empty());
                    assert(worth_word(op0, ty, w, c, t));
                    assert((w.word)(vp, t) == value(k, c.launch, t, ptr.0 as int));
                    assert((w.word)(vo, t) == value(k, c.launch, t, offsets.0 as int));
                    assert((w.word)(vv, t) == value(k, c.launch, t, val.0 as int));
                    assert((w.word)(vm, t) == value(k, c.launch, t, mask.0 as int));
                    assert(dtype_fits(k.nodes[val.0 as int], ty[vv.0 as int].dtype));
                    assert(effects_of(ops, ty, w, t) =~= node_effects(k, c.launch, t, i));
                }
            }
        },
        _ => {},
    }
}

/// Row `row` of an input matrix with `len` halves in a row, up to some depth, as floats.
pub open spec fn input_row(l: Launch, ptr: u32, row: int, len: u32, depth: nat) -> Seq<u32> {
    Seq::new(depth, |j: int| widened((l.halves)(ptr as int, row * len + j)))
}

/// Whether an operation stores the product of two matrices where it belongs: workgroup `(i, j)`
/// stores the tile that begins at row `i` times the height and column `j` times the width of a
/// tile; and the cell `x` rows below and `y` columns behind holds what that row of the first
/// matrix and the row of the second matrix of that column give.
pub open spec fn stores_product(
    k: BlockState,
    i: int,
    op: TileOp,
    ty: Seq<TileType>,
    w: Worth,
    c: Call,
) -> bool {
    let l = c.launch;
    k.nodes[i] matches BNode::TileGemm { a_ptr, b_ptr, y_ptr, k_dim, n_dim, config } && (op
        matches TileOp::TileStore2D { ptr, row, col, stride, value: tile } && {
        let top = wrapped((l.group)(0) * config.tile_m);
        let left = wrapped((l.group)(1) * config.tile_n);
        let (depth, len) = (value(k, l, 0, k_dim.0 as int), value(k, l, 0, n_dim.0 as int));
        &&& (w.word)(ptr, 0) == value(k, l, 0, y_ptr.0 as int)
        &&& ty[tile.0 as int].rows == config.tile_m
        &&& ty[tile.0 as int].cols == config.tile_n
        &&& ty[tile.0 as int].dtype == ScalarDType::F32
        &&& forall|x: int, y: int| #[trigger]
            cell_place(w, row, col, stride, x, y) == (top + x) * len + left + y
        &&& forall|x: int, y: int| #[trigger]
            (w.cell)(tile, x, y) == (l.floats.dot)(
                0,
                input_row(l, value(k, l, 0, a_ptr.0 as int), top + x, depth, config.tile_k as nat),
                input_row(l, value(k, l, 0, b_ptr.0 as int), left + y, depth, config.tile_k as nat),
            )
    })
}

/// A whole matrix multiplication.
#[verifier::spinoff_prover]
#[verifier::rlimit(100)]
proof fn lemma_gemm_node(
    k: BlockState,
    i: int,
    f: FuncState,
    vals: Seq<Option<Value>>,
    g: FuncState,
    v: Option<Value>,
    ty: Seq<TileType>,
    w: Worth,
    c: Call,
)
    requires
        startable(k, i, f, vals),
        node_step(k, f, vals, k.nodes[i]) == Ok::<(FuncState, Option<Value>), Seq<char>>((g, v)),
        k.nodes[i] is TileGemm,
    ensures
        moved(k, i, f, g, v),
        given(k, i, f, g, vals, ty, w, c) ==> kept(k, i, f, g, v, ty, w, c) && stores_product(
            k,
            i,
            added_ops(f, g).last(),
            ty,
            w,
            c,
        ),
{
    reveal(node_step);
    reveal(gemm_step);
    match k.nodes[i] {
        BNode::TileGemm { a_ptr, b_ptr, y_ptr, k_dim, n_dim, config } => {
            let (va, vb) = (vals[a_ptr.0 as int]->0, vals[b_ptr.0 as int]->0);
            let vy = vals[y_ptr.0 as int]->0;
            let (vk, vn) = (vals[k_dim.0 as int]->0, vals[n_dim.0 as int]->0);
            let e = Seq::<TileOp>::empty();
            let d = Seq::<TileType>::empty();
            lemma_start(f);
            let op0 = TileOp::ProgramId { result: f.next(), axis: 0 };
            let t0 = scalar_type(ScalarDType::U32);
            let f1 = f.define(t0, op0);
            lemma_define(f, f, e, d, t0, op0);
            let o0 = e.push(op0);
            let d0 = d.push(t0);
            let op1 = TileOp::ProgramId { result: f1.next(), axis: 1 };
            let t1 = scalar_type(ScalarDType::U32);
            let f2 = f1.define(t1, op1);
            lemma_define(f, f1, o0, d0, t1, op1);
            let o1 = o0.push(op1);
            let d1 = d0.push(t1);
            let op2 = TileOp::ConstU32 { result: f2.next(), value: config.tile_m };
            let t2 = scalar_type(ScalarDType::U32);
            let f3 = f2.define(t2, op2);
            lemma_define(f, f2, o1, d1, t2, op2);
            let o2 = o1.push(op2);
            let d2 = d1.push(t2);
            let op3 = TileOp::ConstU32 { result: f3.next(), value: config.tile_n };
            let t3 = scalar_type(ScalarDType::U32);
            let f4 = f3.define(t3, op3);
            lemma_define(f, f3, o2, d2, t3, op3);
            let o3 = o2.push(op3);
            let d3 = d2.push(t3);
            let op4 = TileOp::Binary {
                result: f4.next(),
                kind: BinOpKind::Mul,
                lhs: f.next(),
                rhs: f2.next(),
            };
            let t4 = joined_type(f4.ty(f.next()), f4.ty(f2.next()));
            let f5 = f4.define(t4, op4);
            lemma_define(f, f4, o3, d3, t4, op4);
            let o4 = o3.push(op4);
            let d4 = d3.push(t4);
            let op5 = TileOp::Binary {
                result: f5.next(),
                kind: BinOpKind::Mul,
                lhs: f1.next(),
                rhs: f3.next(),
            };
            let t5 = joined_type(f5.ty(f1.next()), f5.ty(f3.next()));
            let f6 = f5.define(t5, op5);
            lemma_define(f, f5, o4, d4, t5, op5);
            let o5 = o4.push(op5);
            let d5 = d4.push(t5);
            let op6 = TileOp::Splat { result: f6.next(), bits: 0 };
            let t6 = tile_type(
                config.tile_m,
                config.tile_n,
                ScalarDType::F32,
                TensorLayout::MmaAccumulator,
            );
            let f7 = f6.define(t6, op6);
            lemma_define(f, f6, o5, d5, t6, op6);
            let o6 = o5.push(op6);
            let d6 = d5.push(t6);
            let op7 = TileOp::ConstU32 { result: f7.next(), value: 0 };
            let t7 = scalar_type(ScalarDType::U32);
            let f8 = f7.define(t7, op7);
            lemma_define(f, f7, o6, d6, t7, op7);
            let o7 = o6.push(op7);
            let d7 = d6.push(t7);
            let op8 = TileOp::TileLoad2D {
                result: f8.next(),
                ptr: va,
                row: f4.next(),
                col: f7.next(),
                stride: vk,
            };
            let t8 = tile_type(
                config.tile_m,
                config.tile_k,
                ScalarDType::BF16,
                TensorLayout::Shared,
            );
            let f9 = f8.define(t8, op8);
            lemma_define(f, f8, o7, d7, t8, op8);
            let o8 = o7.push(op8);
            let d8 = d7.push(t8);
            let op9 = TileOp::TileLoad2D {
                result: f9.next(),
                ptr: vb,
                row: f5.next(),
                col: f7.next(),
                stride: vk,
            };
            let t9 = tile_type(
                config.tile_k,
                config.tile_n,
                ScalarDType::BF16,
                TensorLayout::Shared,
            );
            let f10 = f9.define(t9, op9);
            lemma_define(f, f9, o8, d8, t9, op9);
            let o9 = o8.push(op9);
            let d9 = d8.push(t9);
            let op10 = TileOp::TileDot {
                result: f10.next(),
                a: f8.next(),
                b: f9.next(),
                acc: f6.next(),
            };
            let t10 = f10.ty(f6.next());
            let f11 = f10.define(t10, op10);
            lemma_define(f, f10, o9, d9, t10, op10);
            let o10 = o9.push(op10);
            let d10 = d9.push(t10);
            let op11 = TileOp::TileStore2D {
                ptr: vy,
                row: f4.next(),
                col: f5.next(),
                stride: vn,
                value: f10.next(),
            };
            lemma_with_op(f, f11, o10, d10, op11);
            let ops = o10.push(op11);
            lemma_grown(f, g, ops, d10);
            if given(k, i, f, g, vals, ty, w, c) {
                assert(well_typed(k, k.nodes[i]));
                lemma_says(f, g, ops, d10, 0, ty, w, c);
                assert(ops[0] == op0);
                lemma_says(f, g, ops, d10, 1, ty, w, c);
                assert(ops[1] == op1);
                lemma_says(f, g, ops, d10, 2, ty, w, c);
                assert(ops[2] == op2);
                lemma_says(f, g, ops, d10, 3, ty, w, c);
                assert(ops[3] == op3);
                lemma_says(f, g, ops, d10, 4, ty, w, c);
                assert(ops[4] == op4);
                lemma_says(f, g, ops, d10, 5, ty, w, c);
                assert(ops[5] == op5);
                lemma_says(f, g, ops, d10, 6, ty, w, c);
                assert(ops[6] == op6);
                lemma_says(f, g, ops, d10, 7, ty, w, c);
                assert(ops[7] == op7);
                lemma_says(f, g, ops, d10, 8, ty, w, c);
                assert(ops[8] == op8);
                lemma_says(f, g, ops, d10, 9, ty, w, c);
                assert(ops[9] == op9);
                lemma_says(f, g, ops, d10, 10, ty, w, c);
                assert(ops[10] == op10);
                let n = f.types.len() as int;
                assert(g.types[n + 0] == t0);
                assert(g.types[n + 1] == t1);
                assert(g.types[n + 2] == t2);
                assert(g.types[n + 3] == t3);
                assert(g.types[n + 4] == t4);
                assert(g.types[n + 5] == t5);
                assert(g.types[n + 6] == t6);
                assert(g.types[n + 7] == t7);
                assert(g.types[n + 8] == t8);
                assert(g.types[n + 9] == t9);
                assert(g.types[n + 10] == t10);
                let l = c.launch;
                assert(worth_word(op0, ty, w, c, 0));
                assert(worth_word(op1, ty, w, c, 0));
                assert(worth_word(op2, ty, w, c, 0));
                assert(worth_word(op3, ty, w, c, 0));
                assert(worth_word(op4, ty, w, c, 0));
                assert(worth_word(op5, ty, w, c, 0));
                assert(worth_word(op7, ty, w, c, 0));
                assert((w.word)(va, 0) == value(k, l, 0, a_ptr.0 as int));
                assert((w.word)(vb, 0) == value(k, l, 0, b_ptr.0 as int));
                assert((w.word)(vy, 0) == value(k, l, 0, y_ptr.0 as int));
                assert((w.word)(vk, 0) == value(k, l, 0, k_dim.0 as int));
                assert((w.word)(vn, 0) == value(k, l, 0, n_dim.0 as int));
                let top = wrapped((l.group)(0) * config.tile_m);
                let left = wrapped((l.group)(1) * config.tile_n);
                assert((w.word)(f4.next(), 0) == top);
                assert((w.word)(f5.next(), 0) == left);
                let depth = config.tile_k as nat;
                let (pa, pb) = ((w.word)(va, 0), (w.word)(vb, 0));
                assert forall|x: int, y: int| #[trigger] (w.cell)(f10.next(), x, y) == (
                l.floats.dot)(
                    0,
                    input_row(l, pa, top + x, (w.word)(vk, 0), depth),
                    input_row(l, pb, left + y, (w.word)(vk, 0), depth),
                ) by {
                    assert(worth_cell(op10, ty, w, c, x, y));
                    assert(worth_cell(op6, ty, w, c, x, y));
                    let ra = row_of(w, f8.next(), x, depth);
                    let rb = row_of(w, f9.next(), y, depth);
                    let ia = input_row(l, pa, top + x, (w.word)(vk, 0), depth);
                    let ib = input_row(l, pb, left + y, (w.word)(vk, 0), depth);
                    assert forall|j: int| 0 <= j < depth implies #[trigger] ra[j] == ia[j] by {
                        assert(worth_cell(op8, ty, w, c, x, j));
                    }
                    assert forall|j: int| 0 <= j < depth implies #[trigger] rb[j] == ib[j] by {
                        assert(worth_cell(op9, ty, w, c, y, j));
                    }
                    assert(ra =~= ia);
                    assert(rb =~= ib);
                }
                assert(added_ops(f, g).last() == op11);
                assert forall|t: u32| t < k.block_size implies #[trigger] effects_of(
                    added_ops(f, g),
                    ty,
                    w,
                    t,
                ) == node_effects(k, c.launch, t, i) by {
                    assert forall|j: int| 0 <= j < o10.len() implies effect_of(
                        #[trigger] o10[j],
                        ty,
                        w,
                        t,
                    ) is None by {
                        assert(o10[j] == ops[j]);
                    }
                    lemma_silent(o10, ty, w, t);
                    lemma_effects_push(o10, op11, ty, w, t);
                    assert(effects_of(ops, ty, w, t) =~= node_effects(k, c.launch, t, i));
                }
            }
        },
        _ => {},
    }
}

/// Whether a node is part of a loop or of a condition.
pub open spec fn steers(node: BNode<Seq<char>>) -> bool {
    node is ForBegin || node is ForEnd || node is ForAccBegin || node is ForAccPhi
        || node is ForAccEnd || node is ForAccResult || node is IfMask || node is ElseMask
        || node is EndIf
}

/// Any node that is neither part of a loop nor of a condition.
proof fn lemma_any_node(
    k: BlockState,
    i: int,
    f: FuncState,
    vals: Seq<Option<Value>>,
    g: FuncState,
    v: Option<Value>,
    ty: Seq<TileType>,
    w: Worth,
    c: Call,
)
    requires
        startable(k, i, f, vals),
        node_step(k, f, vals, k.nodes[i]) == Ok::<(FuncState, Option<Value>), Seq<char>>((g, v)),
        !steers(k.nodes[i]),
    ensures
        moved(k, i, f, g, v),
        given(k, i, f, g, vals, ty, w, c) ==> kept(k, i, f, g, v, ty, w, c),
{
    let node = k.nodes[i];
    if node is AddF32 || node is SubF32 || node is MulF32 || node is DivF32 || node is MaxF32
        || node is MinF32 {
        lemma_float_node(k, i, f, vals, g, v, ty, w, c);
    } else if node is AddU32 || node is SubU32 || node is MulU32 || node is AndBool {
        lemma_word_node(k, i, f, vals, g, v, ty, w, c);
    } else if node is ExpF32 || node is Log2F32 || node is SqrtF32 || node is RcpF32
        || node is RsqrtF32
        || node is AbsF32 || node is NegF32 || node is SinF32 || node is CosF32 {
        lemma_unary_node(k, i, f, vals, g, v, ty, w, c);
    } else if node is LtU32 || node is GeU32 || node is CmpLtF32 || node is CmpGtF32
        || node is CmpEqF32 {
        lemma_compare_node(k, i, f, vals, g, v, ty, w, c);
    } else if node is ShrConstU32 || node is ShlConstU32 || node is AndConstU32
        || node is OrConstU32
        || node is XorConstU32 {
        lemma_const_node(k, i, f, vals, g, v, ty, w, c);
    } else if node is ProgramId || node is ThreadIdY || node is ConstU32 || node is ConstF32 {
        lemma_number_node(k, i, f, vals, g, v, ty, w, c);
    } else if node is LdsAlloc || node is LdsLoad {
        lemma_shared_node(k, i, f, vals, g, v, ty, w, c);
    } else if node is FmaF32 || node is Select || node is CvtF32U32 || node is CvtU32F32
        || node is CvtPkBf16F32 {
        lemma_mixed_node(k, i, f, vals, g, v, ty, w, c);
    } else if node is ArgPtr || node is ArgU32 || node is ArgF32 {
        lemma_arg_node(k, i, f, vals, g, v, ty, w, c);
    } else if node is ThreadId || node is Arange {
        lemma_range_node(k, i, f, vals, g, v, ty, w, c);
    } else if node is Load || node is LoadU32 {
        lemma_load_node(k, i, f, vals, g, v, ty, w, c);
    } else if node is CvtF32BF16 {
        lemma_widening_node(k, i, f, vals, g, v, ty, w, c);
    } else if node is LoadBf16 {
        lemma_bf16_load_node(k, i, f, vals, g, v, ty, w, c);
    } else if node is WaveReduceAddF32 || node is WaveReduceMaxF32 {
        lemma_wave_node(k, i, f, vals, g, v, ty, w, c);
    } else if node is WgReduceAddF32 || node is WgReduceMaxF32 || node is WgReduceMinF32 {
        lemma_group_node(k, i, f, vals, g, v, ty, w, c);
    } else if node is ZeroAcc || node is SplatFragment || node is Wmma || node is ExtractF32 {
        lemma_frame_node(k, i, f, vals, g, v, ty, w, c);
    } else if node is Store || node is AtomicAddF32 || node is LdsStore || node is Barrier {
        lemma_store_node(k, i, f, vals, g, v, ty, w, c);
    } else if node is StoreBf16 {
        lemma_bf16_store_node(k, i, f, vals, g, v, ty, w, c);
    } else if node is TileGemm {
        lemma_gemm_node(k, i, f, vals, g, v, ty, w, c);
    } else {
        reveal(node_step);
    }
}

// ── Whole kernels ──
/// Whether a function continues another: it has its values and its blocks, with at least their
/// operations, in the same places.
pub open spec fn continues(f: FuncState, g: FuncState) -> bool {
    &&& begins(f.types, g.types)
    &&& f.blocks.len() <= g.blocks.len()
    &&& forall|b: int|
        0 <= b < f.blocks.len() ==> (#[trigger] f.blocks[b]).params == g.blocks[b].params
            && f.blocks[b].ops.len() <= g.blocks[b].ops.len() && f.blocks[b].ops
            == g.blocks[b].ops.take(f.blocks[b].ops.len() as int)
}

proof fn lemma_continues_has(f: FuncState, g: FuncState)
    requires
        continues(f, g),
    ensures
        forall|op: TileOp| #[trigger] has_op(f, op) ==> has_op(g, op),
{
    assert forall|op: TileOp| #[trigger] has_op(f, op) implies has_op(g, op) by {
        let (b, j) = choose|b: int, j: int|
            0 <= b < f.blocks.len() && 0 <= j < f.blocks[b].ops.len()
                && #[trigger] f.blocks[b].ops[j] == op;
        assert(f.blocks[b].ops[j] == g.blocks[b].ops.take(f.blocks[b].ops.len() as int)[j]);
        assert(g.blocks[b].ops[j] == op);
    }
}

proof fn lemma_continues_trans(f: FuncState, g: FuncState, h: FuncState)
    requires
        continues(f, g),
        continues(g, h),
    ensures
        continues(f, h),
{
    assert forall|b: int| 0 <= b < f.blocks.len() implies (#[trigger] f.blocks[b]).params
        == h.blocks[b].params && f.blocks[b].ops.len() <= h.blocks[b].ops.len() && f.blocks[b].ops
        == h.blocks[b].ops.take(f.blocks[b].ops.len() as int) by {
        assert(g.blocks[b].params == h.blocks[b].params);
        let n = f.blocks[b].ops.len() as int;
        assert(h.blocks[b].ops.take(g.blocks[b].ops.len() as int).take(n)
            =~= h.blocks[b].ops.take(n));
    }
}

proof fn lemma_appended_continues(
    f: FuncState,
    g: FuncState,
    ops: Seq<TileOp>,
    tys: Seq<TileType>,
)
    requires
        appended(f, g, ops, tys),
    ensures
        continues(f, g),
{
    assert forall|b: int| 0 <= b < f.blocks.len() implies (#[trigger] f.blocks[b]).params
        == g.blocks[b].params && f.blocks[b].ops.len() <= g.blocks[b].ops.len() && f.blocks[b].ops
        == g.blocks[b].ops.take(f.blocks[b].ops.len() as int) by {
        assert(f.blocks[b].ops =~= g.blocks[b].ops.take(f.blocks[b].ops.len() as int));
    }
}

/// What holds of a translation under way, whether it is run or not.
spec fn shaped(k: BlockState, n: int, p: Progress) -> bool {
    &&& p.vals.len() == n
    &&& p.loops.len() == n
    &&& p.accs.len() == n
    &&& 0 <= p.f.current < p.f.blocks.len() <= 3 * n + 1
    &&& p.f.types.len() <= 12 * n
    &&& vals_ok(p.f, p.vals)
    &&& p.f.args.len() == arg_count(k, n)
    &&& arg_count(k, n) <= n
    &&& forall|i: int|
        0 <= i < n ==> (#[trigger] p.loops[i] matches Some(lp) ==> loop_shaped(k, i, p, lp))
    &&& forall|i: int|
        0 <= i < n ==> (#[trigger] p.accs[i] matches Some(lp) ==> acc_shaped(k, i, p, lp))
}

/// Whether a block is the head of a loop: the loop goes on while its counter is less than its
/// end, in the block behind the head, and otherwise goes on in the one behind that.
spec fn heads(f: FuncState, head: int, params: Seq<Value>, end: Value) -> bool {
    &&& 0 <= head
    &&& head + 2 < f.blocks.len() <= usize::MAX
    &&& f.blocks[head].params == params
    &&& params.len() > 0
    &&& f.blocks[head].ops.len() >= 2
    &&& f.blocks[head].ops[0] matches TileOp::Compare { result, kind, lhs, rhs } && kind
        == CmpOpKind::Lt && lhs == params[0] && rhs == end && f.blocks[head].ops[1]
        == (TileOp::Branch {
        cond: result,
        on_true: (head + 1) as usize,
        on_false: (head + 2) as usize,
    })
}

proof fn lemma_heads(f: FuncState, g: FuncState, head: int, params: Seq<Value>, end: Value)
    requires
        heads(f, head, params, end),
        continues(f, g),
        g.blocks.len() <= usize::MAX,
    ensures
        heads(g, head, params, end),
{
    let n = f.blocks[head].ops.len() as int;
    assert(f.blocks[head].params == g.blocks[head].params);
    assert(g.blocks[head].ops.take(n)[0] == g.blocks[head].ops[0]);
    assert(g.blocks[head].ops.take(n)[1] == g.blocks[head].ops[1]);
}

/// What holds of an open loop.
spec fn loop_shaped(k: BlockState, i: int, p: Progress, lp: ForLoop) -> bool {
    &&& lp.exit == lp.header + 2
    &&& lp.exit < p.f.blocks.len()
    &&& p.vals[i] == Some(lp.iv)
    &&& lp.iv.0 < p.f.types.len()
    &&& p.f.types[lp.iv.0 as int] == scalar_type(ScalarDType::U32)
    &&& translated(k, i as nat) matches Ok(o) && lp.header == o.f.blocks.len()
    &&& k.nodes[i] matches BNode::ForBegin { end, step, .. } && lp.step == step && end.0 < i
        && p.vals[end.0 as int] is Some && heads(
        p.f,
        lp.header as int,
        seq![lp.iv],
        p.vals[end.0 as int]->0,
    )
}

proof fn lemma_loop_stays(k: BlockState, i: int, p: Progress, q: Progress, lp: ForLoop)
    requires
        loop_shaped(k, i, p, lp),
        continues(p.f, q.f),
        vals_ok(p.f, p.vals),
        q.f.blocks.len() <= usize::MAX,
        0 <= i < p.vals.len() <= q.vals.len(),
        forall|j: int| 0 <= j < p.vals.len() ==> #[trigger] q.vals[j] == p.vals[j],
    ensures
        loop_shaped(k, i, q, lp),
{
    match k.nodes[i] {
        BNode::ForBegin { end, .. } => {
            assert(q.vals[end.0 as int] == p.vals[end.0 as int]);
            assert(q.vals[i] == p.vals[i]);
            assert(q.f.types[lp.iv.0 as int] == p.f.types[lp.iv.0 as int]);
            let x = p.vals[end.0 as int]->0;
            lemma_heads(p.f, q.f, lp.header as int, seq![lp.iv], x);
        },
        _ => {},
    }
}

/// What holds of an open loop that carries a value.
spec fn acc_shaped(k: BlockState, i: int, p: Progress, lp: ForLoopAcc) -> bool {
    &&& lp.exit == lp.header + 2
    &&& lp.exit < p.f.blocks.len()
    &&& p.vals[i] == Some(lp.iv)
    &&& lp.iv.0 < p.f.types.len()
    &&& p.f.types[lp.iv.0 as int] == scalar_type(ScalarDType::U32)
    &&& translated(k, i as nat) matches Ok(o) && lp.header == o.f.blocks.len()
    &&& lp.acc.0 == lp.iv.0 + 1
    &&& lp.result == lp.acc
    &&& lp.acc.0 < p.f.types.len()
    &&& k.nodes[i] matches BNode::ForAccBegin { end, step, init_acc, .. } && lp.step == step
        && end.0 < i && p.vals[end.0 as int] is Some && heads(
        p.f,
        lp.header as int,
        seq![lp.iv, lp.acc],
        p.vals[end.0 as int]->0,
    ) && init_acc.0 < i && p.vals[init_acc.0 as int] is Some && p.f.types[lp.acc.0 as int]
        == p.f.types[(p.vals[init_acc.0 as int]->0).0 as int]
}

/// What one more node does to a function.
spec fn stepped(k: BlockState, n: int, p: Progress, q: Progress) -> bool {
    &&& shaped(k, n + 1, q)
    &&& continues(p.f, q.f)
    &&& q.vals.len() == n + 1
    &&& q.vals.take(n) == p.vals
}

proof fn lemma_with(
    k: BlockState,
    n: int,
    p: Progress,
    g: FuncState,
    v: Option<Value>,
)
    requires
        shaped(k, n, p),
        0 <= n < k.nodes.len(),
        16 * k.nodes.len() + 16 <= usize::MAX,
        continues(p.f, g),
        0 <= g.current < g.blocks.len() <= 3 * n + 4,
        g.types.len() <= 12 * n + 12,
        v matches Some(x) ==> x.0 < g.types.len(),
        g.args.len() == arg_count(k, n + 1),
    ensures
        stepped(k, n, p, p.with(g, v, None, None)),
{
    let q = p.with(g, v, None, None);
    assert(q.vals.take(n) =~= p.vals);
    assert forall|j: int| 0 <= j < q.vals.len() implies (#[trigger] q.vals[j] matches Some(x)
        ==> x.0 < q.f.types.len()) by {
        if j < n {
            assert(q.vals[j] == p.vals[j]);
        }
    }
    assert forall|j: int| 0 <= j < p.vals.len() implies #[trigger] q.vals[j] == p.vals[j] by {}
    assert forall|i: int| 0 <= i < n + 1 implies (#[trigger] q.loops[i] matches Some(lp)
        ==> loop_shaped(k, i, q, lp)) by {
        if i < n {
            assert(q.loops[i] == p.loops[i]);
            match p.loops[i] {
                Some(lp) => {
                    assert(loop_shaped(k, i, p, lp));
                    lemma_loop_stays(k, i, p, q, lp);
                },
                None => {},
            }
        }
    }
    assert forall|i: int| 0 <= i < n + 1 implies (#[trigger] q.accs[i] matches Some(lp)
        ==> acc_shaped(k, i, q, lp)) by {
        if i < n {
            assert(q.accs[i] == p.accs[i]);
            match p.accs[i] {
                Some(lp) => {
                    assert(acc_shaped(k, i, p, lp));
                    lemma_acc_stays(k, i, p, q, lp);
                },
                None => {},
            }
        }
    }
}

proof fn lemma_acc_stays(k: BlockState, i: int, p: Progress, q: Progress, lp: ForLoopAcc)
    requires
        acc_shaped(k, i, p, lp),
        continues(p.f, q.f),
        vals_ok(p.f, p.vals),
        q.f.blocks.len() <= usize::MAX,
        0 <= i < p.vals.len() <= q.vals.len(),
        forall|j: int| 0 <= j < p.vals.len() ==> #[trigger] q.vals[j] == p.vals[j],
    ensures
        acc_shaped(k, i, q, lp),
{
    match k.nodes[i] {
        BNode::ForAccBegin { end, init_acc, .. } => {
            assert(q.vals[end.0 as int] == p.vals[end.0 as int]);
            assert(q.f.types[lp.iv.0 as int] == p.f.types[lp.iv.0 as int]);
            lemma_heads(
                p.f,
                q.f,
                lp.header as int,
                seq![lp.iv, lp.acc],
                p.vals[end.0 as int]->0,
            );
            assert(q.vals[init_acc.0 as int] == p.vals[init_acc.0 as int]);
            let x = p.vals[init_acc.0 as int]->0;
            assert(q.f.types[x.0 as int] == p.f.types[x.0 as int]);
            assert(q.f.types[lp.acc.0 as int] == p.f.types[lp.acc.0 as int]);
            assert(q.vals[i] == p.vals[i]);
        },
        _ => {},
    }
}

/// The head, the body and what is behind a loop are added behind all blocks.
proof fn lemma_loop_blocks(
    f: FuncState,
    g: FuncState,
    jump: TileOp,
    types: Seq<TileType>,
    head: BlockText,
)
    requires
        0 <= f.current < f.blocks.len(),
        g.types == f.types + types,
        g.blocks == f.with_op(jump).blocks.push(head).push(empty_block()).push(empty_block()),
    ensures
        continues(f, g),
        g.blocks.len() == f.blocks.len() + 3,
        added_ops(f, g) == seq![jump],
        g.blocks[f.blocks.len() as int] == head,
{
    assert forall|b: int| 0 <= b < f.blocks.len() implies (#[trigger] f.blocks[b]).params
        == g.blocks[b].params && f.blocks[b].ops.len() <= g.blocks[b].ops.len() && f.blocks[b].ops
        == g.blocks[b].ops.take(f.blocks[b].ops.len() as int) by {
        assert(g.blocks[b] == f.with_op(jump).blocks[b]);
        assert(f.blocks[b].ops =~= g.blocks[b].ops.take(f.blocks[b].ops.len() as int));
    }
    assert(g.blocks[f.current] == f.with_op(jump).blocks[f.current]);
    assert(added_ops(f, g) =~= seq![jump]);
}

/// The end of a loop: what is added counts, and jumps.
proof fn lemma_loop_end(f: FuncState, g: FuncState, step: u32, iv: Value, jump: TileOp, exit: int)
    requires
        0 <= f.current < f.blocks.len(),
        f.types.len() + 12 <= usize::MAX,
        ({
            let s = f.const_u32(step).binary(BinOpKind::Add, iv, f.next()).with_op(jump);
            g == (FuncState { current: exit, ..s })
        }),
    ensures
        continues(f, g),
        g.blocks.len() == f.blocks.len(),
        g.types.len() == f.types.len() + 2,
        g.args == f.args,
        added_ops(f, g) == seq![
            TileOp::ConstU32 { result: f.next(), value: step },
            TileOp::Binary {
                result: Value((f.types.len() + 1) as usize),
                kind: BinOpKind::Add,
                lhs: iv,
                rhs: f.next(),
            },
            jump,
        ],
{
    let op0 = TileOp::ConstU32 { result: f.next(), value: step };
    let t0 = scalar_type(ScalarDType::U32);
    let f1 = f.define(t0, op0);
    let op1 = TileOp::Binary {
        result: f1.next(),
        kind: BinOpKind::Add,
        lhs: iv,
        rhs: f.next(),
    };
    let t1 = joined_type(f1.ty(iv), f1.ty(f.next()));
    let f2 = f1.define(t1, op1);
    let e = Seq::<TileOp>::empty();
    let d = Seq::<TileType>::empty();
    lemma_start(f);
    lemma_define(f, f, e, d, t0, op0);
    lemma_define(f, f1, e.push(op0), d.push(t0), t1, op1);
    lemma_with_op(f, f2, e.push(op0).push(op1), d.push(t0).push(t1), jump);
    let s = f2.with_op(jump);
    let ops = e.push(op0).push(op1).push(jump);
    lemma_appended_continues(f, s, ops, d.push(t0).push(t1));
    lemma_added(f, s, ops, d.push(t0).push(t1));
    assert(added_ops(f, g) == added_ops(f, s));
    assert(added_ops(f, g) =~= seq![op0, op1, jump]);
}

/// What one more node does to a function, whatever it is.
#[verifier::spinoff_prover]
#[verifier::rlimit(60)]
proof fn lemma_step(k: BlockState, n: int, p: Progress, q: Progress)
    requires
        shaped(k, n, p),
        translated(k, n as nat) == Ok::<Progress, Seq<char>>(p),
        0 <= n < k.nodes.len(),
        16 * k.nodes.len() + 16 <= usize::MAX,
        progress_step(k, p, k.nodes[n]) == Ok::<Progress, Seq<char>>(q),
    ensures
        stepped(k, n, p, q),
{
    reveal(progress_step);
    let f = p.f;
    let node = k.nodes[n];
    assert(arg_count(k, n + 1) == arg_count(k, n) + if node is ArgPtr || node is ArgU32
        || node is ArgF32 {
        1nat
    } else {
        0
    });
    if !steers(node) {
        match node_step(k, f, p.vals, node) {
            Ok((g, v)) => {
                let (ty, w, c) = (
                    Seq::<TileType>::empty(),
                    arbitrary::<Worth>(),
                    arbitrary::<Call>(),
                );
                lemma_any_node(k, n, f, p.vals, g, v, ty, w, c);
                lemma_appended_continues(
                    f,
                    g,
                    added_ops(f, g),
                    g.types.skip(f.types.len() as int),
                );
                lemma_with(k, n, p, g, v);
            },
            Err(_) => {},
        }
    } else {
        lemma_start(f);
        lemma_appended_continues(f, f, Seq::empty(), Seq::empty());
        match node {
            BNode::ForBegin { start, end, step } => {
                lemma_begin(k, n, p, q);
            },
            BNode::ForAccBegin { start, end, step, init_acc } => {
                lemma_begin_acc(k, n, p, q);
            },
            BNode::ForEnd { begin_node } => {
                let lp = p.loops[begin_node as int]->0;
                assert(loop_shaped(k, begin_node as int, p, lp));
                let g = f.end_for(lp);
                let next = Value((f.types.len() + 1) as usize);
                lemma_loop_end(
                    f,
                    g,
                    lp.step,
                    lp.iv,
                    TileOp::Jump { target: lp.header, iv: next },
                    lp.exit as int,
                );
                let p1 = Progress { loops: p.loops.update(begin_node as int, None), ..p };
                assert forall|i: int| 0 <= i < n implies (#[trigger] p1.accs[i] matches Some(l2)
                    ==> acc_shaped(k, i, p1, l2)) by {
                    assert(p.accs[i] == p1.accs[i]);
                    match p.accs[i] {
                        Some(l2) => {
                            assert(acc_shaped(k, i, p, l2));
                        },
                        None => {},
                    }
                }
                assert forall|i: int| 0 <= i < n implies (#[trigger] p1.loops[i] matches Some(l2)
                    ==> loop_shaped(k, i, p1, l2)) by {
                    if p1.loops[i] is Some {
                        assert(p.loops[i] == p1.loops[i]);
                        assert(loop_shaped(k, i, p, p.loops[i]->0));
                    }
                }
                assert(shaped(k, n, p1));
                lemma_with(k, n, p1, g, None);
            },
            BNode::ForAccPhi { begin_node } => {
                let lp = p.accs[begin_node as int]->0;
                assert(acc_shaped(k, begin_node as int, p, lp));
                lemma_with(k, n, p, f, Some(lp.acc));
            },
            BNode::ForAccEnd { begin_node, new_acc } => {
                let lp = p.accs[begin_node as int]->0;
                assert(acc_shaped(k, begin_node as int, p, lp));
                let v = p.vals[new_acc.0 as int]->0;
                let g = f.end_for_acc(lp, v);
                let next = Value((f.types.len() + 1) as usize);
                lemma_loop_end(
                    f,
                    g,
                    lp.step,
                    lp.iv,
                    TileOp::JumpAcc { target: lp.header, iv: next, acc: v },
                    lp.exit as int,
                );
                lemma_with(k, n, p, g, None);
            },
            BNode::ForAccResult { begin_node } => {
                let lp = p.accs[begin_node as int]->0;
                assert(acc_shaped(k, begin_node as int, p, lp));
                let p1 = Progress { accs: p.accs.update(begin_node as int, None), ..p };
                assert forall|i: int| 0 <= i < n implies (#[trigger] p1.accs[i] matches Some(l2)
                    ==> acc_shaped(k, i, p1, l2)) by {
                    if i != begin_node {
                        assert(p.accs[i] == p1.accs[i]);
                        match p.accs[i] {
                            Some(l2) => {
                                assert(acc_shaped(k, i, p, l2));
                            },
                            None => {},
                        }
                    }
                }
                assert forall|i: int| 0 <= i < n implies (#[trigger] p1.loops[i] matches Some(l2)
                    ==> loop_shaped(k, i, p1, l2)) by {
                    if p1.loops[i] is Some {
                        assert(p.loops[i] == p1.loops[i]);
                        assert(loop_shaped(k, i, p, p.loops[i]->0));
                    }
                }
                assert(shaped(k, n, p1));
                lemma_with(k, n, p1, f, Some(lp.result));
            },
            BNode::IfMask(mask) => {
                let v = p.vals[mask.0 as int]->0;
                let op = TileOp::ExecMaskPush { mask: v };
                lemma_with_op(f, f, Seq::empty(), Seq::empty(), op);
                lemma_appended_continues(f, f.with_op(op), Seq::empty().push(op), Seq::empty());
                lemma_with(k, n, p, f.with_op(op), None);
            },
            BNode::ElseMask => {
                let op = TileOp::ExecMaskFlip;
                lemma_with_op(f, f, Seq::empty(), Seq::empty(), op);
                lemma_appended_continues(f, f.with_op(op), Seq::empty().push(op), Seq::empty());
                lemma_with(k, n, p, f.with_op(op), None);
            },
            BNode::EndIf => {
                let op = TileOp::ExecMaskPop;
                lemma_with_op(f, f, Seq::empty(), Seq::empty(), op);
                lemma_appended_continues(f, f.with_op(op), Seq::empty().push(op), Seq::empty());
                lemma_with(k, n, p, f.with_op(op), None);
            },
            _ => {},
        }
    }
}

/// The beginning of a loop.
proof fn lemma_begin(k: BlockState, n: int, p: Progress, q: Progress)
    requires
        shaped(k, n, p),
        translated(k, n as nat) == Ok::<Progress, Seq<char>>(p),
        0 <= n < k.nodes.len(),
        16 * k.nodes.len() + 16 <= usize::MAX,
        k.nodes[n] matches BNode::ForBegin { start, end, step } && begin_step(p, start, end, step)
            == Ok::<Progress, Seq<char>>(q),
        arg_count(k, n + 1) == arg_count(k, n),
    ensures
        stepped(k, n, p, q),
        k.nodes[n] matches BNode::ForBegin { start, end, step } && {
            let f = p.f;
            let s = p.vals[start.0 as int]->0;
            &&& q.vals[n] == Some(f.next())
            &&& q.f.types[f.types.len() as int] == scalar_type(ScalarDType::U32)
            &&& q.f.current == f.blocks.len() + 1
            &&& added_ops(f, q.f) == seq![TileOp::Jump { target: f.blocks.len() as usize, iv: s }]
        },
{
    let f = p.f;
    match k.nodes[n] {
        BNode::ForBegin { start, end, step } => {
            let s = p.vals[start.0 as int]->0;
            let t = p.vals[end.0 as int]->0;
            let lp = f.next_loop(step);
            let g = f.for_range(s, t);
            let jump = TileOp::Jump { target: f.blocks.len() as usize, iv: s };
            let types = seq![scalar_type(ScalarDType::U32), scalar_type(ScalarDType::Bool)];
            assert(g.types =~= f.types + types);
            lemma_loop_blocks(f, g, jump, types, g.blocks[f.blocks.len() as int]);
            lemma_with(k, n, p, g, Some(lp.iv));
            let r = p.with(g, Some(lp.iv), None, None);
            assert(q.vals == r.vals && q.accs == r.accs && q.f == r.f);
            assert(q.vals[end.0 as int] == p.vals[end.0 as int]);
            assert(g.types[f.types.len() as int] == scalar_type(ScalarDType::U32));
            assert(heads(g, f.blocks.len() as int, seq![lp.iv], t));
            assert(loop_shaped(k, n, q, lp));
            assert forall|i: int| 0 <= i < n + 1 implies (#[trigger] q.loops[i] matches Some(l2)
                ==> loop_shaped(k, i, q, l2)) by {
                if i < n {
                    assert(q.loops[i] == r.loops[i]);
                    match r.loops[i] {
                        Some(l2) => {
                            assert(loop_shaped(k, i, r, l2));
                        },
                        None => {},
                    }
                }
            }
            assert forall|i: int| 0 <= i < n + 1 implies (#[trigger] q.accs[i] matches Some(l2)
                ==> acc_shaped(k, i, q, l2)) by {
                match r.accs[i] {
                    Some(l2) => {
                        assert(acc_shaped(k, i, r, l2));
                    },
                    None => {},
                }
            }
            assert(shaped(k, n + 1, q));
        },
        _ => {},
    }
}

/// The beginning of a loop that carries a value.
proof fn lemma_begin_acc(k: BlockState, n: int, p: Progress, q: Progress)
    requires
        shaped(k, n, p),
        translated(k, n as nat) == Ok::<Progress, Seq<char>>(p),
        0 <= n < k.nodes.len(),
        16 * k.nodes.len() + 16 <= usize::MAX,
        k.nodes[n] matches BNode::ForAccBegin { start, end, step, init_acc } && begin_acc_step(
            p,
            start,
            end,
            step,
            init_acc,
        ) == Ok::<Progress, Seq<char>>(q),
        arg_count(k, n + 1) == arg_count(k, n),
    ensures
        stepped(k, n, p, q),
        k.nodes[n] matches BNode::ForAccBegin { start, end, step, init_acc } && {
            let f = p.f;
            let s = p.vals[start.0 as int]->0;
            let x = p.vals[init_acc.0 as int]->0;
            &&& q.vals[n] == Some(f.next())
            &&& q.f.types[f.types.len() as int] == scalar_type(ScalarDType::U32)
            &&& q.f.current == f.blocks.len() + 1
            &&& added_ops(f, q.f) == seq![
                TileOp::JumpAcc { target: f.blocks.len() as usize, iv: s, acc: x },
            ]
        },
{
    let f = p.f;
    match k.nodes[n] {
        BNode::ForAccBegin { start, end, step, init_acc } => {
            let s = p.vals[start.0 as int]->0;
            let t = p.vals[end.0 as int]->0;
            let x = p.vals[init_acc.0 as int]->0;
            let lp = f.next_loop_acc(step);
            let g = f.for_range_acc(s, t, x);
            let jump = TileOp::JumpAcc { target: f.blocks.len() as usize, iv: s, acc: x };
            let types = seq![
                scalar_type(ScalarDType::U32),
                f.ty(x),
                scalar_type(ScalarDType::Bool),
            ];
            assert(g.types =~= f.types + types);
            lemma_loop_blocks(f, g, jump, types, g.blocks[f.blocks.len() as int]);
            lemma_with(k, n, p, g, Some(lp.iv));
            let r = p.with(g, Some(lp.iv), None, None);
            assert(q.vals == r.vals && q.loops == r.loops && q.f == r.f);
            assert(g.types[f.types.len() as int + 1] == f.ty(x));
            assert(g.types[x.0 as int] == f.types[x.0 as int]);
            assert(q.vals[init_acc.0 as int] == p.vals[init_acc.0 as int]);
            assert(q.vals[end.0 as int] == p.vals[end.0 as int]);
            assert(g.types[f.types.len() as int] == scalar_type(ScalarDType::U32));
            assert(heads(g, f.blocks.len() as int, seq![lp.iv, lp.acc], t));
            assert(acc_shaped(k, n, q, lp));
            assert forall|i: int| 0 <= i < n + 1 implies (#[trigger] q.loops[i] matches Some(l2)
                ==> loop_shaped(k, i, q, l2)) by {
                match r.loops[i] {
                    Some(l2) => {
                        assert(loop_shaped(k, i, r, l2));
                    },
                    None => {},
                }
            }
            assert forall|i: int| 0 <= i < n + 1 implies (#[trigger] q.accs[i] matches Some(l2)
                ==> acc_shaped(k, i, q, l2)) by {
                if i < n {
                    assert(q.accs[i] == r.accs[i]);
                    match r.accs[i] {
                        Some(l2) => {
                            assert(acc_shaped(k, i, r, l2));
                        },
                        None => {},
                    }
                }
            }
            assert(shaped(k, n + 1, q));
        },
        _ => {},
    }
}

/// What holds of every translation.
proof fn lemma_shape(k: BlockState, n: nat)
    requires
        n <= k.nodes.len(),
        16 * k.nodes.len() + 16 <= usize::MAX,
    ensures
        translated(k, n) matches Ok(p) ==> shaped(k, n as int, p),
    decreases n,
{
    if n > 0 {
        lemma_shape(k, (n - 1) as nat);
        match (translated(k, (n - 1) as nat), translated(k, n)) {
            (Ok(p), Ok(q)) => {
                lemma_step(k, n - 1, p, q);
            },
            _ => {},
        }
    }
}

/// A translation goes on from what it had.
proof fn lemma_continued(k: BlockState, m: nat, n: nat)
    requires
        m <= n <= k.nodes.len(),
        16 * k.nodes.len() + 16 <= usize::MAX,
        translated(k, n) is Ok,
    ensures
        translated(k, m) is Ok,
        shaped(k, m as int, translated(k, m)->Ok_0),
        shaped(k, n as int, translated(k, n)->Ok_0),
        continues(translated(k, m)->Ok_0.f, translated(k, n)->Ok_0.f),
        translated(k, n)->Ok_0.vals.take(m as int) == translated(k, m)->Ok_0.vals,
    decreases n - m,
{
    lemma_shape(k, n);
    let q = translated(k, n)->Ok_0;
    if m == n {
        lemma_start(q.f);
        lemma_appended_continues(q.f, q.f, Seq::empty(), Seq::empty());
        assert(q.vals.take(m as int) =~= q.vals);
    } else {
        let l = (n - 1) as nat;
        lemma_continued(k, m, l);
        let p = translated(k, l)->Ok_0;
        let o = translated(k, m)->Ok_0;
        lemma_step(k, l as int, p, q);
        lemma_continues_trans(o.f, p.f, q.f);
        assert(q.vals.take(m as int) =~= q.vals.take(l as int).take(m as int));
    }
}

/// A node of a loop or of a condition became what it is.
#[verifier::spinoff_prover]
#[verifier::rlimit(60)]
proof fn lemma_steering(
    k: BlockState,
    n: int,
    p: Progress,
    q: Progress,
    ty: Seq<TileType>,
    w: Worth,
    c: Call,
)
    requires
        shaped(k, n, p),
        0 <= n < k.nodes.len(),
        translated(k, n as nat) == Ok::<Progress, Seq<char>>(p),
        progress_step(k, p, k.nodes[n]) == Ok::<Progress, Seq<char>>(q),
        steers(k.nodes[n]),
        regular(k),
        known(k, n, p.vals, ty, w, c),
        begins(q.f.types, ty),
        in_turn(k, q.vals, w, c, n + 1),
        stepped(k, n, p, q),
    ensures
        kept(k, n, p.f, q.f, q.vals[n], ty, w, c),
{
    reveal(progress_step);
    let f = p.f;
    let node = k.nodes[n];
    assert(well_typed(k, node));
    assert(arg_count(k, n + 1) == arg_count(k, n));
    lemma_start(f);
    match node {
        BNode::ForBegin { start, end, step } => {
            lemma_begin(k, n, p, q);
            assert forall|t: u32| t < k.block_size implies #[trigger] effects_of(
                added_ops(f, q.f),
                ty,
                w,
                t,
            ) == node_effects(k, c.launch, t, n) by {
                lemma_silent(added_ops(f, q.f), ty, w, t);
            }
            assert(ty[f.types.len() as int] == q.f.types[f.types.len() as int]);
        },
        BNode::ForAccBegin { start, end, step, init_acc } => {
            lemma_begin_acc(k, n, p, q);
            assert forall|t: u32| t < k.block_size implies #[trigger] effects_of(
                added_ops(f, q.f),
                ty,
                w,
                t,
            ) == node_effects(k, c.launch, t, n) by {
                lemma_silent(added_ops(f, q.f), ty, w, t);
            }
            assert(ty[f.types.len() as int] == q.f.types[f.types.len() as int]);
        },
        BNode::ForEnd { begin_node } => {
            let lp = p.loops[begin_node as int]->0;
            let next = Value((f.types.len() + 1) as usize);
            let jump = TileOp::Jump { target: lp.header, iv: next };
            lemma_loop_end(f, q.f, lp.step, lp.iv, jump, lp.exit as int);
            assert forall|t: u32| t < k.block_size implies #[trigger] effects_of(
                added_ops(f, q.f),
                ty,
                w,
                t,
            ) == node_effects(k, c.launch, t, n) by {
                lemma_silent(added_ops(f, q.f), ty, w, t);
            }
        },
        BNode::ForAccEnd { begin_node, new_acc } => {
            let lp = p.accs[begin_node as int]->0;
            let v = p.vals[new_acc.0 as int]->0;
            let next = Value((f.types.len() + 1) as usize);
            let jump = TileOp::JumpAcc { target: lp.header, iv: next, acc: v };
            lemma_loop_end(f, q.f, lp.step, lp.iv, jump, lp.exit as int);
            assert forall|t: u32| t < k.block_size implies #[trigger] effects_of(
                added_ops(f, q.f),
                ty,
                w,
                t,
            ) == node_effects(k, c.launch, t, n) by {
                lemma_silent(added_ops(f, q.f), ty, w, t);
            }
        },
        BNode::ForAccPhi { begin_node } | BNode::ForAccResult { begin_node } => {
            let lp = p.accs[begin_node as int]->0;
            assert(acc_shaped(k, begin_node as int, p, lp));
            assert(q.f == f);
            assert(added_ops(f, q.f) =~= Seq::empty());
            assert(q.vals[begin_node as int] == p.vals[begin_node as int]) by {
                assert(q.vals.take(n)[begin_node as int] == p.vals[begin_node as int]);
            }
            assert(lp.acc == Value((lp.iv.0 + 1) as usize));
            assert(k.nodes[begin_node as int] is ForAccBegin);
            assert(well_typed(k, k.nodes[begin_node as int]));
            match k.nodes[begin_node as int] {
                BNode::ForAccBegin { init_acc, .. } => {
                    let x = p.vals[init_acc.0 as int]->0;
                    assert(has_value(k.nodes[init_acc.0 as int])) by {
                        every_value_is_translated(k, n as nat);
                    }
                    assert(ty[x.0 as int] == f.types[x.0 as int]);
                    assert(ty[lp.acc.0 as int] == f.types[lp.acc.0 as int]);
                },
                _ => {},
            }
        },
        BNode::IfMask(mask) => {
            let v = p.vals[mask.0 as int]->0;
            let op = TileOp::ExecMaskPush { mask: v };
            lemma_with_op(f, f, Seq::empty(), Seq::empty(), op);
            lemma_added(f, f.with_op(op), Seq::empty().push(op), Seq::empty());
            assert forall|t: u32| t < k.block_size implies #[trigger] effects_of(
                added_ops(f, q.f),
                ty,
                w,
                t,
            ) == node_effects(k, c.launch, t, n) by {
                assert((w.word)(v, t) == value(k, c.launch, t, mask.0 as int));
                lemma_effects_push(Seq::empty(), op, ty, w, t);
            }
        },
        BNode::ElseMask => {
            let op = TileOp::ExecMaskFlip;
            lemma_with_op(f, f, Seq::empty(), Seq::empty(), op);
            lemma_added(f, f.with_op(op), Seq::empty().push(op), Seq::empty());
            assert forall|t: u32| t < k.block_size implies #[trigger] effects_of(
                added_ops(f, q.f),
                ty,
                w,
                t,
            ) == node_effects(k, c.launch, t, n) by {
                lemma_effects_push(Seq::empty(), op, ty, w, t);
            }
        },
        BNode::EndIf => {
            let op = TileOp::ExecMaskPop;
            lemma_with_op(f, f, Seq::empty(), Seq::empty(), op);
            lemma_added(f, f.with_op(op), Seq::empty().push(op), Seq::empty());
            assert forall|t: u32| t < k.block_size implies #[trigger] effects_of(
                added_ops(f, q.f),
                ty,
                w,
                t,
            ) == node_effects(k, c.launch, t, n) by {
                lemma_effects_push(Seq::empty(), op, ty, w, t);
            }
        },
        _ => {},
    }
}

/// What one more node became, in a run of the function.
#[verifier::spinoff_prover]
#[verifier::rlimit(40)]
proof fn lemma_kept(k: BlockState, n: int, ty: Seq<TileType>, w: Worth, c: Call)
    requires
        0 <= n < k.nodes.len(),
        translated(k, (n + 1) as nat) is Ok,
        regular(k),
        feeds(k, c),
        known(k, n, translated(k, n as nat)->Ok_0.vals, ty, w, c),
        begins(translated(k, (n + 1) as nat)->Ok_0.f.types, ty),
        ty.len() <= usize::MAX,
        computes(translated(k, (n + 1) as nat)->Ok_0.f, ty, w, c),
        in_turn(k, translated(k, (n + 1) as nat)->Ok_0.vals, w, c, n + 1),
    ensures
        ({
            let p = translated(k, n as nat)->Ok_0;
            let q = translated(k, (n + 1) as nat)->Ok_0;
            &&& kept(k, n, p.f, q.f, q.vals[n], ty, w, c)
            &&& k.nodes[n] is TileGemm ==> stores_product(
                k,
                n,
                added_ops(p.f, q.f).last(),
                ty,
                w,
                c,
            )
        }),
{
    lemma_continued(k, n as nat, (n + 1) as nat);
    let p = translated(k, n as nat)->Ok_0;
    let q = translated(k, (n + 1) as nat)->Ok_0;
    let node = k.nodes[n];
    lemma_step(k, n, p, q);
    if steers(node) {
        lemma_steering(k, n, p, q, ty, w, c);
    } else {
        reveal(progress_step);
        match node_step(k, p.f, p.vals, node) {
            Ok((g, v)) => {
                assert(q.vals[n] == v && q.f == g);
                lemma_any_node(k, n, p.f, p.vals, g, v, ty, w, c);
                if node is LdsAlloc {
                    assert(v == Some(p.f.next())) by {
                        reveal(node_step);
                        reveal(lds_space_step);
                    }
                }
                assert(given(k, n, p.f, g, p.vals, ty, w, c));
                if node is TileGemm {
                    lemma_gemm_node(k, n, p.f, p.vals, g, v, ty, w, c);
                }
            },
            Err(_) => {},
        }
    }
}

/// What all nodes so far became, in a run of the function.
proof fn lemma_known(k: BlockState, n: nat, ty: Seq<TileType>, w: Worth, c: Call)
    requires
        n <= k.nodes.len(),
        translated(k, n) is Ok,
        regular(k),
        feeds(k, c),
        begins(translated(k, n)->Ok_0.f.types, ty),
        ty.len() <= usize::MAX,
        computes(translated(k, n)->Ok_0.f, ty, w, c),
        in_turn(k, translated(k, n)->Ok_0.vals, w, c, n as int),
    ensures
        known(k, n as int, translated(k, n)->Ok_0.vals, ty, w, c),
    decreases n,
{
    lemma_shape(k, n);
    if n > 0 {
        let m = (n - 1) as nat;
        lemma_continued(k, m, n);
        let p = translated(k, m)->Ok_0;
        let q = translated(k, n)->Ok_0;
        lemma_continues_has(p.f, q.f);
        assert forall|i: int| 0 <= i < m implies p.vals[i] == #[trigger] q.vals[i] by {
            assert(q.vals.take(m as int)[i] == q.vals[i]);
        }
        assert(in_turn(k, p.vals, w, c, m as int)) by {
            assert forall|i: int| 0 <= i < m implies p.vals[i] == q.vals[i] by {
                assert(p.vals[i] == q.vals[i]);
            }
        }
        assert(begins(p.f.types, ty)) by {
            assert forall|i: int| 0 <= i < p.f.types.len() implies #[trigger] p.f.types[i]
                == ty[i] by {
                assert(q.f.types[i] == ty[i]);
            }
        }
        lemma_known(k, m, ty, w, c);
        lemma_kept(k, m as int, ty, w, c);
        assert(kept(k, m as int, p.f, q.f, q.vals[m as int], ty, w, c));
        assert forall|i: int, t: u32| 0 <= i < n && wordy(k.nodes[i]) && t < k.block_size implies (
        w.word)(q.vals[i]->0, t) == #[trigger] value(k, c.launch, t, i) by {
            if i < m {
                assert(p.vals[i] == q.vals[i]);
            }
        }
        assert forall|i: int, t: u32| 0 <= i < n && framed(k.nodes[i]) && t < k.block_size implies (
        w.words)(q.vals[i]->0, t) == #[trigger] fragment(k, c.launch, t, i) by {
            if i < m {
                assert(p.vals[i] == q.vals[i]);
            }
        }
        assert forall|i: int| 0 <= i < n && has_value(k.nodes[i]) implies (
        #[trigger] q.vals[i]) is Some && (q.vals[i]->0).0 < ty.len() && dtype_fits(
            k.nodes[i],
            ty[(q.vals[i]->0).0 as int].dtype,
        ) by {
            if i < m {
                assert(p.vals[i] == q.vals[i]);
            }
        }
    }
}

// ── Laws ──
/// The function when its first `i` nodes are translated.
pub open spec fn function_at(k: BlockState, i: int) -> FuncState {
    translated(k, i as nat)->Ok_0.f
}

/// The values of a function that the nodes of its kernel became.
pub open spec fn values_of(k: BlockState) -> Seq<Option<Value>> {
    translated(k, k.nodes.len())->Ok_0.vals
}

/// Whether values are what they are in some run of the function of a kernel: the operations of
/// the function are computed, on what a launch hands over, in the turn that it looks at.
pub open spec fn runs(k: BlockState, w: Worth, c: Call) -> bool {
    &&& regular(k)
    &&& function_of(k) is Ok
    &&& feeds(k, c)
    &&& computes(function_of(k)->Ok_0, function_of(k)->Ok_0.types, w, c)
    &&& in_turn(k, values_of(k), w, c, k.nodes.len() as int)
}

/// What holds of a run up to some node.
proof fn lemma_run(k: BlockState, n: nat, w: Worth, c: Call)
    requires
        runs(k, w, c),
        n <= k.nodes.len(),
    ensures
        translated(k, n) is Ok,
        shaped(k, n as int, translated(k, n)->Ok_0),
        ({
            let ty = function_of(k)->Ok_0.types;
            let p = translated(k, n)->Ok_0;
            &&& ty.len() <= usize::MAX
            &&& continues(p.f, function_of(k)->Ok_0)
            &&& begins(p.f.types, ty)
            &&& computes(p.f, ty, w, c)
            &&& in_turn(k, p.vals, w, c, n as int)
            &&& known(k, n as int, p.vals, ty, w, c)
            &&& p.vals == values_of(k).take(n as int)
        }),
{
    let all = k.nodes.len();
    lemma_continued(k, n, all);
    let p = translated(k, n)->Ok_0;
    let q = translated(k, all)->Ok_0;
    let f = function_of(k)->Ok_0;
    let e = Seq::<TileOp>::empty();
    lemma_start(q.f);
    lemma_with_op(q.f, q.f, e, Seq::empty(), TileOp::Return);
    lemma_appended_continues(q.f, f, e.push(TileOp::Return), Seq::empty());
    lemma_continues_trans(p.f, q.f, f);
    lemma_continues_has(p.f, f);
    assert forall|i: int| 0 <= i < n implies p.vals[i] == #[trigger] q.vals[i] by {
        assert(q.vals.take(n as int)[i] == q.vals[i]);
    }
    assert(in_turn(k, p.vals, w, c, n as int)) by {
        assert forall|i: int| 0 <= i < n implies p.vals[i] == q.vals[i] by {
            assert(p.vals[i] == q.vals[i]);
        }
    }
    lemma_known(k, n, f.types, w, c);
}

/// Translation keeps what a kernel computes: in every run of the function of a kernel, the value
/// that a node became is worth to each thread what the node is to it, and is of its type.
pub proof fn translation_keeps_values(k: BlockState, w: Worth, c: Call)
    requires
        runs(k, w, c),
    ensures
        known(k, k.nodes.len() as int, values_of(k), function_of(k)->Ok_0.types, w, c),
{
    lemma_run(k, k.nodes.len(), w, c);
    assert(values_of(k).take(k.nodes.len() as int) =~= values_of(k));
}

/// Translation keeps what a kernel does: the operations that a node became stand together in
/// the function, and have for each thread the effects of the node, in their order.
pub proof fn translation_keeps_effects(k: BlockState, i: int, t: u32, w: Worth, c: Call)
    requires
        runs(k, w, c),
        0 <= i < k.nodes.len(),
        t < k.block_size,
    ensures
        ({
            let f = function_of(k)->Ok_0;
            let b = function_at(k, i).current;
            let from = function_at(k, i).blocks[b].ops.len() as int;
            let to = function_at(k, i + 1).blocks[b].ops.len() as int;
            &&& 0 <= b < f.blocks.len()
            &&& from <= to <= f.blocks[b].ops.len()
            &&& effects_of(f.blocks[b].ops.subrange(from, to), f.types, w, t) == node_effects(
                k,
                c.launch,
                t,
                i,
            )
        }),
{
    lemma_node(k, i, w, c);
    lemma_stretch(k, i, i + 1, w, c);
}

proof fn lemma_node(k: BlockState, i: int, w: Worth, c: Call)
    requires
        runs(k, w, c),
        0 <= i < k.nodes.len(),
    ensures
        ({
            let p = translated(k, i as nat)->Ok_0;
            let q = translated(k, (i + 1) as nat)->Ok_0;
            let ty = function_of(k)->Ok_0.types;
            &&& kept(k, i, p.f, q.f, q.vals[i], ty, w, c)
            &&& k.nodes[i] is TileGemm ==> stores_product(
                k,
                i,
                added_ops(p.f, q.f).last(),
                ty,
                w,
                c,
            )
        }),
{
    lemma_run(k, i as nat, w, c);
    lemma_run(k, (i + 1) as nat, w, c);
    lemma_kept(k, i, function_of(k)->Ok_0.types, w, c);
}

/// Operations that were added stay where they are.
proof fn lemma_stretch(k: BlockState, i: int, j: int, w: Worth, c: Call)
    requires
        runs(k, w, c),
        0 <= i <= j <= k.nodes.len(),
    ensures
        ({
            let f = function_of(k)->Ok_0;
            let b = function_at(k, i).current;
            let from = function_at(k, i).blocks[b].ops.len() as int;
            let to = function_at(k, j).blocks[b].ops.len() as int;
            &&& 0 <= b < f.blocks.len()
            &&& from <= to <= f.blocks[b].ops.len()
            &&& f.blocks[b].ops.subrange(from, to)
            == added_ops(function_at(k, i), function_at(k, j))
        }),
{
    lemma_run(k, i as nat, w, c);
    lemma_run(k, j as nat, w, c);
    lemma_continued(k, i as nat, j as nat);
    let f = function_of(k)->Ok_0;
    let (d, e) = (function_at(k, i), function_at(k, j));
    let b = d.current;
    assert(d.blocks[b].params == e.blocks[b].params);
    assert(e.blocks[b].params == f.blocks[b].params);
    let (from, to) = (d.blocks[b].ops.len() as int, e.blocks[b].ops.len() as int);
    assert(f.blocks[b].ops.subrange(from, to) =~= e.blocks[b].ops.skip(from)) by {
        assert(e.blocks[b].ops == f.blocks[b].ops.take(to));
    }
}

/// The effects of nodes `i` to `j`, in order.
pub open spec fn stretch_effects(k: BlockState, l: Launch, t: u32, i: int, j: int) -> Seq<Effect>
    decreases j - i,
{
    if j <= i {
        Seq::empty()
    } else {
        stretch_effects(k, l, t, i, j - 1) + node_effects(k, l, t, j - 1)
    }
}

/// Whether a node begins or ends a loop.
pub open spec fn bounds_loop(node: BNode<Seq<char>>) -> bool {
    node is ForBegin || node is ForEnd || node is ForAccBegin || node is ForAccEnd
}

/// Nodes with no beginning or end of a loop among them do what they do in order, in one block of
/// the function: a thread has the effects of one node after those of the node before it, and no
/// others. A kernel without loops is one such stretch.
pub proof fn stretches_keep_effects(k: BlockState, i: int, j: int, t: u32, w: Worth, c: Call)
    requires
        runs(k, w, c),
        0 <= i <= j <= k.nodes.len(),
        t < k.block_size,
        forall|m: int| i <= m < j ==> !bounds_loop(#[trigger] k.nodes[m]),
    ensures
        ({
            let f = function_of(k)->Ok_0;
            let b = function_at(k, i).current;
            let from = function_at(k, i).blocks[b].ops.len() as int;
            let to = function_at(k, j).blocks[b].ops.len() as int;
            &&& function_at(k, j).current == b
            &&& 0 <= b < f.blocks.len()
            &&& from <= to <= f.blocks[b].ops.len()
            &&& effects_of(f.blocks[b].ops.subrange(from, to), f.types, w, t) == stretch_effects(
                k,
                c.launch,
                t,
                i,
                j,
            )
            &&& i == 0 && j == k.nodes.len() ==> b == 0 && from == 0 && effects_of(
                f.blocks[b].ops,
                f.types,
                w,
                t,
            ) == stretch_effects(k, c.launch, t, i, j)
        }),
    decreases j - i,
{
    let f = function_of(k)->Ok_0;
    lemma_run(k, i as nat, w, c);
    let b = function_at(k, i).current;
    let from = function_at(k, i).blocks[b].ops.len() as int;
    let to = function_at(k, j).blocks[b].ops.len() as int;
    if i == j {
        lemma_stretch(k, i, i, w, c);
        assert(f.blocks[b].ops.subrange(from, from) =~= Seq::empty());
    } else {
        let m = j - 1;
        stretches_keep_effects(k, i, m, t, w, c);
        lemma_run(k, m as nat, w, c);
        lemma_run(k, j as nat, w, c);
        lemma_node(k, m, w, c);
        lemma_stretch(k, m, j, w, c);
        lemma_stays(k, m, w, c);
        let mid = function_at(k, m).blocks[b].ops.len() as int;
        assert(f.blocks[b].ops.subrange(from, to) =~= f.blocks[b].ops.subrange(from, mid)
            + f.blocks[b].ops.subrange(mid, to));
        lemma_effects_concat(
            f.blocks[b].ops.subrange(from, mid),
            f.blocks[b].ops.subrange(mid, to),
            f.types,
            w,
            t,
        );
    }
    if i == 0 && j == k.nodes.len() {
        let g = function_at(k, j);
        assert(f.blocks[b].ops =~= f.blocks[b].ops.subrange(0, to).push(TileOp::Return));
        lemma_effects_push(f.blocks[b].ops.subrange(0, to), TileOp::Return, f.types, w, t);
    }
}

/// Operations go on to the same block, but for the beginning and the end of a loop.
proof fn lemma_stays(k: BlockState, i: int, w: Worth, c: Call)
    requires
        runs(k, w, c),
        0 <= i < k.nodes.len(),
        !bounds_loop(k.nodes[i]),
    ensures
        function_at(k, i + 1).current == function_at(k, i).current,
{
    lemma_run(k, i as nat, w, c);
    lemma_run(k, (i + 1) as nat, w, c);
    let p = translated(k, i as nat)->Ok_0;
    let q = translated(k, (i + 1) as nat)->Ok_0;
    reveal(progress_step);
    if !steers(k.nodes[i]) {
        match node_step(k, p.f, p.vals, k.nodes[i]) {
            Ok((g, v)) => {
                lemma_any_node(k, i, p.f, p.vals, g, v, Seq::empty(), w, c);
            },
            Err(_) => {},
        }
    }
}

proof fn lemma_effects_concat(
    a: Seq<TileOp>,
    b: Seq<TileOp>,
    ty: Seq<TileType>,
    w: Worth,
    t: u32,
)
    ensures
        effects_of(a + b, ty, w, t) == effects_of(a, ty, w, t) + effects_of(b, ty, w, t),
    decreases b.len(),
{
    if b.len() == 0 {
        assert(a + b =~= a);
        assert(effects_of(a, ty, w, t) + effects_of(b, ty, w, t) =~= effects_of(a, ty, w, t));
    } else {
        lemma_effects_concat(a, b.drop_last(), ty, w, t);
        assert((a + b).drop_last() =~= a + b.drop_last());
        assert((a + b).last() == b.last());
        let x = effects_of(a, ty, w, t);
        let y = effects_of(b.drop_last(), ty, w, t);
        match effect_of(b.last(), ty, w, t) {
            Some(e) => {
                assert((x + y).push(e) =~= x + y.push(e));
            },
            None => {},
        }
    }
}

/// Matrices are multiplied: the last operation that a multiplication became stores the tile of
/// the product that belongs to the workgroup, in the place where it belongs.
pub proof fn matrices_are_multiplied(k: BlockState, i: int, w: Worth, c: Call)
    requires
        runs(k, w, c),
        0 <= i < k.nodes.len(),
        k.nodes[i] is TileGemm,
    ensures
        ({
            let f = function_of(k)->Ok_0;
            let b = function_at(k, i).current;
            let to = function_at(k, i + 1).blocks[b].ops.len() as int;
            &&& 0 <= b < f.blocks.len()
            &&& 0 < to <= f.blocks[b].ops.len()
            &&& stores_product(k, i, f.blocks[b].ops[to - 1], f.types, w, c)
        }),
{
    lemma_node(k, i, w, c);
    lemma_stretch(k, i, i + 1, w, c);
    lemma_run(k, i as nat, w, c);
    let f = function_of(k)->Ok_0;
    let b = function_at(k, i).current;
    let from = function_at(k, i).blocks[b].ops.len() as int;
    let to = function_at(k, i + 1).blocks[b].ops.len() as int;
    let ops = f.blocks[b].ops.subrange(from, to);
    assert(effects_of(ops, f.types, w, 0) == node_effects(k, c.launch, 0, i));
    assert(ops.len() > 0);
    assert(ops.last() == f.blocks[b].ops[to - 1]);
}

/// Whether the larger and the smaller of two floats are what their order says.
pub open spec fn ordered(fl: Floats) -> bool {
    forall|x: u32, y: u32| #[trigger] (fl.less)(x, y) ==> {
        &&& (fl.binary)(BinOpKind::Max, x, y) == y
        &&& (fl.binary)(BinOpKind::Max, y, x) == y
        &&& (fl.binary)(BinOpKind::Min, x, y) == x
        &&& (fl.binary)(BinOpKind::Min, y, x) == x
    }
}

/// The larger of two floats is the one that the other is less than, whichever comes first; the
/// smaller is the other one. So it is in every run of the function of a kernel.
pub proof fn larger_and_smaller_are_kept(k: BlockState, i: int, t: u32, w: Worth, c: Call)
    requires
        runs(k, w, c),
        ordered(c.launch.floats),
        0 <= i < k.nodes.len(),
        t < k.block_size,
    ensures
        ({
            let at = |a: BVal| (w.word)(values_of(k)[a.0 as int]->0, t);
            let r = (w.word)(values_of(k)[i]->0, t);
            &&& k.nodes[i] matches BNode::MaxF32(a, b) ==> {
                &&& (c.launch.floats.less)(at(a), at(b)) ==> r == at(b)
                &&& (c.launch.floats.less)(at(b), at(a)) ==> r == at(a)
            }
            &&& k.nodes[i] matches BNode::MinF32(a, b) ==> {
                &&& (c.launch.floats.less)(at(a), at(b)) ==> r == at(a)
                &&& (c.launch.floats.less)(at(b), at(a)) ==> r == at(b)
            }
        }),
{
    let node = k.nodes[i];
    if node is MaxF32 || node is MinF32 {
        let (a, b) = match node {
            BNode::MaxF32(a, b) | BNode::MinF32(a, b) => (a, b),
            _ => arbitrary(),
        };
        translation_keeps_values(k, w, c);
        lemma_run(k, i as nat, w, c);
        lemma_run(k, (i + 1) as nat, w, c);
        reveal(progress_step);
        reveal(node_step);
        reveal(binary_step);
        let l = c.launch;
        assert(well_typed(k, node));
        assert(a.0 < i && b.0 < i);
        let vals = values_of(k);
        assert(values_of(k).take(i)[a.0 as int] == vals[a.0 as int]);
        assert(values_of(k).take(i)[b.0 as int] == vals[b.0 as int]);
        assert((w.word)(vals[i]->0, t) == value(k, l, t, i));
        assert((w.word)(vals[a.0 as int]->0, t) == value(k, l, t, a.0 as int));
        assert((w.word)(vals[b.0 as int]->0, t) == value(k, l, t, b.0 as int));
    }
}

/// Whether the block at `head` decides on a loop: each thread goes on to the body while the
/// counter is less than the end, and otherwise to what is behind the loop.
pub open spec fn decides(
    k: BlockState,
    f: FuncState,
    head: int,
    end: BVal,
    w: Worth,
    c: Call,
) -> bool {
    &&& 0 <= head
    &&& head + 2 < f.blocks.len()
    &&& f.blocks[head].ops.len() >= 2
    &&& f.blocks[head].ops[1] matches TileOp::Branch { cond, on_true, on_false } && on_true == head
        + 1 && on_false == head + 2 && forall|t: u32|
        t < k.block_size ==> (((#[trigger] (w.word)(cond, t)) != 0) <==> c.launch.turn < value(
            k,
            c.launch,
            t,
            end.0 as int,
        ))
}

proof fn lemma_decides(
    k: BlockState,
    f: FuncState,
    head: int,
    params: Seq<Value>,
    end: BVal,
    x: Value,
    ty: Seq<TileType>,
    w: Worth,
    c: Call,
)
    requires
        heads(f, head, params, x),
        computes(f, ty, w, c),
        params[0].0 < ty.len(),
        ty[params[0].0 as int] == scalar_type(ScalarDType::U32),
        forall|t: u32| #[trigger] (w.word)(params[0], t) == c.launch.turn,
        forall|t: u32|
            t < k.block_size ==> #[trigger] (w.word)(x, t) == value(k, c.launch, t, end.0 as int),
    ensures
        decides(k, f, head, end, w, c),
{
    match f.blocks[head].ops[1] {
        TileOp::Branch { cond, on_true, on_false } => {
            assert forall|t: u32| t < k.block_size implies (((#[trigger] (w.word)(cond, t)) != 0)
                <==> c.launch.turn < value(k, c.launch, t, end.0 as int)) by {
                let op = f.blocks[head].ops[0];
                assert(has_op(f, op));
                assert(says(op, ty, w, c));
                assert(worth_word(op, ty, w, c, t));
                assert((w.word)(params[0], t) == c.launch.turn);
                assert((w.word)(x, t) == value(k, c.launch, t, end.0 as int));
            }
        },
        _ => {},
    }
}

/// Loops count: the loop that nodes `i` and `j` begin and end is entered with its start as the
/// counter, goes on while the counter is less than its end, and is entered again with the counter
/// and a step. What is between the two nodes is its body, what comes behind stands behind it.
#[verifier::spinoff_prover]
#[verifier::rlimit(40)]
pub proof fn loops_count(k: BlockState, i: int, j: int, w: Worth, c: Call)
    requires
        runs(k, w, c),
        0 <= i < j < k.nodes.len(),
        k.nodes[i] is ForBegin,
        k.nodes[j] == (BNode::ForEnd::<Seq<char>> { begin_node: i as usize }),
    ensures
        ({
            let f = function_of(k)->Ok_0;
            let head = function_at(k, i).blocks.len() as int;
            let enters = added_ops(function_at(k, i), function_at(k, i + 1));
            let turns = added_ops(function_at(k, j), function_at(k, j + 1));
            k.nodes[i] matches BNode::ForBegin { start, end, step } && {
                &&& f.blocks[head].params == seq![values_of(k)[i]->0]
                &&& decides(k, f, head, end, w, c)
                &&& function_at(k, i + 1).current == head + 1
                &&& function_at(k, j + 1).current == head + 2
                &&& enters.len() == 1
                &&& enters[0] matches TileOp::Jump { target, iv } && target == head && forall|
                    t: u32,
                |
                    t < k.block_size ==> #[trigger] (w.word)(iv, t) == value(
                        k,
                        c.launch,
                        t,
                        start.0 as int,
                    )
                &&& turns.last() matches TileOp::Jump { target, iv } && target == head && forall|
                    t: u32,
                |
                    t < k.block_size ==> #[trigger] (w.word)(iv, t) == wrapped(c.launch.turn + step)
            }
        }),
{
    let f = function_of(k)->Ok_0;
    lemma_run(k, i as nat, w, c);
    lemma_run(k, (i + 1) as nat, w, c);
    lemma_run(k, j as nat, w, c);
    lemma_run(k, (j + 1) as nat, w, c);
    lemma_shape(k, k.nodes.len());
    assert(f.blocks.len() <= usize::MAX);
    let p = translated(k, i as nat)->Ok_0;
    let q = translated(k, (i + 1) as nat)->Ok_0;
    let d = translated(k, j as nat)->Ok_0;
    let e = translated(k, (j + 1) as nat)->Ok_0;
    let head = p.f.blocks.len() as int;
    assert(arg_count(k, i + 1) == arg_count(k, i));
    reveal(progress_step);
    match k.nodes[i] {
        BNode::ForBegin { start, end, step } => {
            lemma_begin(k, i, p, q);
            assert(well_typed(k, k.nodes[i]));
            let lp = d.loops[i]->0;
            assert(loop_shaped(k, i, d, lp));
            assert(lp.header == head);
            let x = d.vals[end.0 as int]->0;
            lemma_heads(d.f, f, head, seq![lp.iv], x);
            assert(values_of(k).take(j)[i] == values_of(k)[i]);
            assert(f.types[lp.iv.0 as int] == d.f.types[lp.iv.0 as int]);
            assert forall|t: u32| t < k.block_size implies #[trigger] (w.word)(x, t) == value(
                k,
                c.launch,
                t,
                end.0 as int,
            ) by {
                assert(word_at(k, end));
            }
            assert(forall|t: u32| #[trigger] (w.word)(lp.iv, t) == c.launch.turn) by {
                assert(k.nodes[i] is ForBegin);
            }
            lemma_decides(k, f, head, seq![lp.iv], end, x, f.types, w, c);
            let next = Value((d.f.types.len() + 1) as usize);
            let jump = TileOp::Jump { target: lp.header, iv: next };
            lemma_loop_end(d.f, e.f, lp.step, lp.iv, jump, lp.exit as int);
            lemma_counts(d.f, e.f, f, lp.step, lp.iv, jump, w, c);
            assert forall|t: u32| t < k.block_size implies #[trigger] (w.word)(
                p.vals[start.0 as int]->0,
                t,
            ) == value(k, c.launch, t, start.0 as int) by {
                assert(word_at(k, start));
            }
        },
        _ => {},
    }
}

/// What is added at the end of a loop counts.
proof fn lemma_counts(
    d: FuncState,
    e: FuncState,
    f: FuncState,
    step: u32,
    iv: Value,
    jump: TileOp,
    w: Worth,
    c: Call,
)
    requires
        0 <= d.current < d.blocks.len() <= e.blocks.len(),
        d.blocks[d.current].ops.len() <= e.blocks[d.current].ops.len(),
        d.types.len() + 12 <= usize::MAX,
        computes(f, f.types, w, c),
        continues(e, f),
        iv.0 < f.types.len(),
        f.types[iv.0 as int] == scalar_type(ScalarDType::U32),
        forall|t: u32| #[trigger] (w.word)(iv, t) == c.launch.turn,
        added_ops(d, e) == seq![
            TileOp::ConstU32 { result: d.next(), value: step },
            TileOp::Binary {
                result: Value((d.types.len() + 1) as usize),
                kind: BinOpKind::Add,
                lhs: iv,
                rhs: d.next(),
            },
            jump,
        ],
    ensures
        forall|t: u32| #[trigger]
            (w.word)(Value((d.types.len() + 1) as usize), t) == wrapped(c.launch.turn + step),
{
    let n = d.blocks[d.current].ops.len() as int;
    lemma_continues_has(e, f);
    let ops = added_ops(d, e);
    let all = e.blocks[d.current].ops;
    assert(all.skip(n).len() == 3);
    assert(all[n] == all.skip(n)[0]);
    assert(all[n + 1] == all.skip(n)[1]);
    assert(has_op(e, ops[0]) && has_op(e, ops[1]));
    assert forall|t: u32| #[trigger]
        (w.word)(Value((d.types.len() + 1) as usize), t) == wrapped(c.launch.turn + step) by {
        assert(says(ops[0], f.types, w, c) && says(ops[1], f.types, w, c));
        assert(worth_word(ops[0], f.types, w, c, t));
        assert(worth_word(ops[1], f.types, w, c, t));
        assert((w.word)(iv, t) == c.launch.turn);
    }
}

/// What the nodes of a loop that carries a value do.
proof fn lemma_acc_steps(k: BlockState, m: int, p: Progress, q: Progress)
    requires
        0 <= m < k.nodes.len(),
        p.vals.len() == m && p.accs.len() == m,
        progress_step(k, p, k.nodes[m]) == Ok::<Progress, Seq<char>>(q),
    ensures
        k.nodes[m] matches BNode::ForAccBegin { start, end, step, init_acc } ==> begin_acc_step(
            p,
            start,
            end,
            step,
            init_acc,
        ) == Ok::<Progress, Seq<char>>(q) && start.0 < m && end.0 < m && init_acc.0 < m
            && p.vals[start.0 as int] is Some,
        k.nodes[m] matches BNode::ForAccPhi { begin_node } ==> begin_node < m
            && p.accs[begin_node as int] is Some && q.vals[m] == Some(
            p.accs[begin_node as int]->0.acc,
        ),
        k.nodes[m] matches BNode::ForAccResult { begin_node } ==> begin_node < m
            && p.accs[begin_node as int] is Some && q.vals[m] == Some(
            p.accs[begin_node as int]->0.result,
        ),
        k.nodes[m] matches BNode::ForAccEnd { begin_node, new_acc } ==> begin_node < m
            && p.accs[begin_node as int] is Some && new_acc.0 < m
            && p.vals[new_acc.0 as int] is Some
            && q.f == p.f.end_for_acc(p.accs[begin_node as int]->0, p.vals[new_acc.0 as int]->0),
{
    reveal(progress_step);
}

/// Loops carry a value: the loop that nodes `i` and `j` begin and end, besides counting, is
/// entered with a first value, and again with a new one; its head hands both on as one value,
/// which is the one that the body reads and that the loop leaves.
#[verifier::spinoff_prover]
#[verifier::rlimit(40)]
pub proof fn loops_carry(k: BlockState, i: int, j: int, new_acc: BVal, w: Worth, c: Call)
    requires
        runs(k, w, c),
        0 <= i < j < k.nodes.len(),
        k.nodes[i] is ForAccBegin,
        k.nodes[j] == (BNode::ForAccEnd::<Seq<char>> { begin_node: i as usize, new_acc }),
    ensures
        ({
            let f = function_of(k)->Ok_0;
            let vals = values_of(k);
            let head = function_at(k, i).blocks.len() as int;
            let enters = added_ops(function_at(k, i), function_at(k, i + 1));
            let turns = added_ops(function_at(k, j), function_at(k, j + 1));
            k.nodes[i] matches BNode::ForAccBegin { start, end, step, init_acc } && {
                &&& f.blocks[head].params.len() == 2
                &&& f.blocks[head].params[0] == vals[i]->0
                &&& decides(k, f, head, end, w, c)
                &&& function_at(k, i + 1).current == head + 1
                &&& function_at(k, j + 1).current == head + 2
                &&& enters.len() == 1
                &&& enters[0] matches TileOp::JumpAcc { target, iv, acc } && target == head && acc
                    == vals[init_acc.0 as int]->0 && forall|t: u32|
                    t < k.block_size ==> #[trigger] (w.word)(iv, t) == value(
                        k,
                        c.launch,
                        t,
                        start.0 as int,
                    )
                &&& turns.last() matches TileOp::JumpAcc { target, iv, acc } && target == head
                    && acc == vals[new_acc.0 as int]->0 && forall|t: u32|
                    t < k.block_size ==> #[trigger] (w.word)(iv, t) == wrapped(c.launch.turn + step)
            }
        }),
{
    let f = function_of(k)->Ok_0;
    let vals = values_of(k);
    lemma_run(k, i as nat, w, c);
    lemma_run(k, (i + 1) as nat, w, c);
    lemma_run(k, j as nat, w, c);
    lemma_run(k, (j + 1) as nat, w, c);
    lemma_shape(k, k.nodes.len());
    assert(f.blocks.len() <= usize::MAX);
    let p = translated(k, i as nat)->Ok_0;
    let q = translated(k, (i + 1) as nat)->Ok_0;
    let d = translated(k, j as nat)->Ok_0;
    let e = translated(k, (j + 1) as nat)->Ok_0;
    let head = p.f.blocks.len() as int;
    assert(arg_count(k, i + 1) == arg_count(k, i));
    lemma_acc_steps(k, i, p, q);
    lemma_acc_steps(k, j, d, e);
    match k.nodes[i] {
        BNode::ForAccBegin { start, end, step, init_acc } => {
            lemma_begin_acc(k, i, p, q);
            assert(well_typed(k, k.nodes[i]));
            let lp = d.accs[i]->0;
            assert(acc_shaped(k, i, d, lp));
            assert(lp.header == head);
            let x = d.vals[end.0 as int]->0;
            let params = seq![lp.iv, lp.acc];
            lemma_heads(d.f, f, head, params, x);
            assert(vals.take(j)[i] == vals[i]);
            assert(vals.take(i)[init_acc.0 as int] == vals[init_acc.0 as int]);
            assert(vals.take(j)[new_acc.0 as int] == vals[new_acc.0 as int]);
            assert(f.types[lp.iv.0 as int] == d.f.types[lp.iv.0 as int]);
            assert forall|t: u32| t < k.block_size implies #[trigger] (w.word)(x, t) == value(
                k,
                c.launch,
                t,
                end.0 as int,
            ) by {
                assert(word_at(k, end));
            }
            assert(forall|t: u32| #[trigger] (w.word)(lp.iv, t) == c.launch.turn) by {
                assert(k.nodes[i] is ForAccBegin);
            }
            lemma_decides(k, f, head, params, end, x, f.types, w, c);
            let next = Value((d.f.types.len() + 1) as usize);
            let y = d.vals[new_acc.0 as int]->0;
            let jump = TileOp::JumpAcc { target: lp.header, iv: next, acc: y };
            lemma_loop_end(d.f, e.f, lp.step, lp.iv, jump, lp.exit as int);
            lemma_counts(d.f, e.f, f, lp.step, lp.iv, jump, w, c);
            assert forall|t: u32| t < k.block_size implies #[trigger] (w.word)(
                p.vals[start.0 as int]->0,
                t,
            ) == value(k, c.launch, t, start.0 as int) by {
                assert(word_at(k, start));
            }
        },
        _ => {},
    }
}

/// The value that a loop carries is the one that its head takes: the nodes that read it, in the
/// body and behind the loop, became that value.
#[verifier::spinoff_prover]
#[verifier::rlimit(40)]
pub proof fn carried_values_are_the_heads(k: BlockState, i: int, m: int, w: Worth, c: Call)
    requires
        runs(k, w, c),
        0 <= i < m < k.nodes.len(),
        k.nodes[i] is ForAccBegin,
        k.nodes[m] == (BNode::ForAccPhi::<Seq<char>> { begin_node: i as usize }) || k.nodes[m]
            == (BNode::ForAccResult::<Seq<char>> { begin_node: i as usize }),
    ensures
        ({
            let head = function_at(k, i).blocks.len() as int;
            function_of(k)->Ok_0.blocks[head].params == seq![
                values_of(k)[i]->0,
                values_of(k)[m]->0,
            ]
        }),
{
    let f = function_of(k)->Ok_0;
    let vals = values_of(k);
    lemma_run(k, m as nat, w, c);
    lemma_run(k, (m + 1) as nat, w, c);
    lemma_shape(k, k.nodes.len());
    let d = translated(k, m as nat)->Ok_0;
    let e = translated(k, (m + 1) as nat)->Ok_0;
    lemma_acc_steps(k, m, d, e);
    let lp = d.accs[i]->0;
    assert(acc_shaped(k, i, d, lp));
    match k.nodes[i] {
        BNode::ForAccBegin { end, .. } => {
            let x = d.vals[end.0 as int]->0;
            lemma_heads(d.f, f, lp.header as int, seq![lp.iv, lp.acc], x);
            assert(vals.take(m)[i] == vals[i]);
            assert(vals.take(m + 1)[m] == vals[m]);
        },
        _ => {},
    }
}

} // verus!
