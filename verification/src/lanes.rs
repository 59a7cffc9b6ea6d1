//! What the graph of a kernel computes, thread by thread.
//!
//! Floats are words, and their arithmetic is a parameter: what is said of a kernel holds
//! however floats are rounded. Loads see memory as it was when the kernel started, and a loop
//! is looked at one turn at a time.
use vstd::prelude::*;

use crate::block_dsl::{
    BNode, BType, BVal, BlockState, GELU_CUBE, HALF, LOG2_E, ONE, SQRT_2_OVER_PI, TWO,
};
use crate::block_dsl_to_ssa::operands;
use crate::tile_ssa::{BinOpKind, ReduceKind, UnaryOpKind};

verus! {

/// Arithmetic on the bits of floats.
pub struct Floats {
    pub unary: spec_fn(UnaryOpKind, u32) -> u32,
    pub binary: spec_fn(BinOpKind, u32, u32) -> u32,
    /// A product and a sum in one.
    pub fused: spec_fn(u32, u32, u32) -> u32,
    pub less: spec_fn(u32, u32) -> bool,
    pub same: spec_fn(u32, u32) -> bool,
    /// The sum, the largest or the smallest of several.
    pub reduce: spec_fn(ReduceKind, Seq<u32>) -> u32,
    /// The float of an unsigned number.
    pub of_word: spec_fn(u32) -> u32,
    /// The unsigned number of a float.
    pub to_word: spec_fn(u32) -> u32,
    /// A float with the products of two rows of floats added.
    pub dot: spec_fn(u32, Seq<u32>, Seq<u32>) -> u32,
}

impl Floats {
    pub open spec fn plus(self, x: u32, y: u32) -> u32 {
        (self.binary)(BinOpKind::Add, x, y)
    }

    pub open spec fn minus(self, x: u32, y: u32) -> u32 {
        (self.binary)(BinOpKind::Sub, x, y)
    }

    pub open spec fn times(self, x: u32, y: u32) -> u32 {
        (self.binary)(BinOpKind::Mul, x, y)
    }

    pub open spec fn over(self, x: u32, y: u32) -> u32 {
        (self.binary)(BinOpKind::Div, x, y)
    }

    pub open spec fn apply(self, kind: UnaryOpKind, x: u32) -> u32 {
        (self.unary)(kind, x)
    }
}

/// One workgroup of a launch.
pub struct Launch {
    /// The arguments, by node.
    pub args: spec_fn(int) -> u32,
    /// The words that pointer arguments point to, by node and place.
    pub words: spec_fn(int, int) -> u32,
    /// The halves of words that pointer arguments point to, by node and place.
    pub halves: spec_fn(int, int) -> u16,
    /// The number of the workgroup, by axis.
    pub group: spec_fn(u8) -> u32,
    /// The number that a loop counts, in the turn that is looked at.
    pub turn: u32,
    /// The value that an accumulating loop carries into that turn, by the node where it
    /// begins and by thread. Behind the loop it is the value carried out.
    pub carried: spec_fn(int, u32) -> u32,
    /// The same for a loop that carries matrix registers.
    pub carried_words: spec_fn(int, u32) -> Seq<u32>,
    /// The words of the local data share at the start of that turn, or behind the loop.
    pub shared: spec_fn(int) -> u32,
    /// Where the parts of the local data share lie, by the node that asks for them.
    pub space: spec_fn(int) -> u32,
    /// What a matrix instruction gives a lane, of the registers of two inputs and a sum in all
    /// lanes of its wave.
    pub product: spec_fn(Seq<Seq<u32>>, Seq<Seq<u32>>, Seq<Seq<u32>>, u32) -> Seq<u32>,
    pub floats: Floats,
}

/// A sum of words, without what does not fit.
pub open spec fn wrapped(n: int) -> u32 {
    (n % 0x1_0000_0000) as u32
}

/// A mask as a word.
pub open spec fn bit(b: bool) -> u32 {
    if b {
        1
    } else {
        0
    }
}

/// A bf16 as a float.
pub open spec fn widened(half: u16) -> u32 {
    (half as u32 * 0x1_0000) as u32
}

/// Two floats as bf16 in one word: their upper halves, the first one below.
pub open spec fn packed(lo: u32, hi: u32) -> u32 {
    ((lo as nat / 0x1_0000) + (hi as nat / 0x1_0000) * 0x1_0000) as u32
}

/// Lane `j` of the wave of a thread.
pub open spec fn wave_lane(t: u32, j: int) -> u32 {
    (32 * (t / 32) + j) as u32
}

/// The value of node `i` for thread `t`. Lanes outside the mask of a load get zero. Nodes
/// without a word are left open.
pub open spec fn value(k: BlockState, l: Launch, t: u32, i: int) -> u32
    decreases i, 1int,
{
    let v = |a: BVal|
        if a.0 < i {
            value(k, l, t, a.0 as int)
        } else {
            0
        };
    let f = l.floats;
    match k.nodes[i] {
        BNode::ArgPtr(_) => i as u32,
        BNode::ArgU32(_) | BNode::ArgF32(_) => (l.args)(i),
        BNode::ProgramId(axis) => (l.group)(axis),
        BNode::ThreadId => (t as int % k.block_x as int) as u32,
        BNode::ThreadIdY { block_x } => (t as int / block_x as int) as u32,
        BNode::Arange { start, .. } => wrapped(start + t),
        BNode::ConstU32(x) => x,
        BNode::ConstF32(x) => x,
        BNode::AddU32(a, b) => wrapped(v(a) + v(b)),
        BNode::SubU32(a, b) => wrapped(v(a) - v(b)),
        BNode::MulU32(a, b) => wrapped(v(a) * v(b)),
        BNode::ShrConstU32(a, n) => v(a) >> (n as u32),
        BNode::ShlConstU32(a, n) => v(a) << (n as u32),
        BNode::AndConstU32(a, x) => v(a) & x,
        BNode::OrConstU32(a, x) => v(a) | x,
        BNode::XorConstU32(a, x) => v(a) ^ x,
        BNode::LtU32(a, b) => bit(v(a) < v(b)),
        BNode::GeU32(a, b) => bit(v(a) >= v(b)),
        BNode::AndBool(a, b) => bit(v(a) != 0 && v(b) != 0),
        BNode::CmpLtF32(a, b) => bit((f.less)(v(a), v(b))),
        BNode::CmpGtF32(a, b) => bit((f.less)(v(b), v(a))),
        BNode::CmpEqF32(a, b) => bit((f.same)(v(a), v(b))),
        BNode::Select { mask, true_val, false_val } => if v(mask) != 0 {
            v(true_val)
        } else {
            v(false_val)
        },
        BNode::AddF32(a, b) => f.plus(v(a), v(b)),
        BNode::SubF32(a, b) => f.minus(v(a), v(b)),
        BNode::MulF32(a, b) => f.times(v(a), v(b)),
        BNode::DivF32(a, b) => f.over(v(a), v(b)),
        BNode::MaxF32(a, b) => (f.binary)(BinOpKind::Max, v(a), v(b)),
        BNode::MinF32(a, b) => (f.binary)(BinOpKind::Min, v(a), v(b)),
        BNode::FmaF32(a, b, c) => (f.fused)(v(a), v(b), v(c)),
        BNode::ExpF32(a) => f.apply(UnaryOpKind::Exp2, v(a)),
        BNode::Log2F32(a) => f.apply(UnaryOpKind::Log2, v(a)),
        BNode::SqrtF32(a) => f.apply(UnaryOpKind::Sqrt, v(a)),
        BNode::RcpF32(a) => f.apply(UnaryOpKind::Rcp, v(a)),
        BNode::RsqrtF32(a) => f.apply(UnaryOpKind::Rsqrt, v(a)),
        BNode::AbsF32(a) => f.apply(UnaryOpKind::Abs, v(a)),
        BNode::NegF32(a) => f.apply(UnaryOpKind::Neg, v(a)),
        BNode::SinF32(a) => f.apply(UnaryOpKind::Sin, v(a)),
        BNode::CosF32(a) => f.apply(UnaryOpKind::Cos, v(a)),
        BNode::CvtF32U32(a) => (f.of_word)(v(a)),
        BNode::CvtU32F32(a) => (f.to_word)(v(a)),
        BNode::CvtF32BF16(a) => widened((v(a) % 0x1_0000) as u16),
        BNode::Load { ptr, offsets, mask } | BNode::LoadU32 { ptr, offsets, mask } => if v(mask)
            != 0 {
            (l.words)(v(ptr) as int, v(offsets) as int)
        } else {
            0
        },
        BNode::LoadBf16 { ptr, offsets, mask } => if v(mask) != 0 {
            widened((l.halves)(v(ptr) as int, v(offsets) as int))
        } else {
            0
        },
        BNode::WgReduceAddF32(a) => (f.reduce)(ReduceKind::Add, group_values(k, l, i, a)),
        BNode::WgReduceMaxF32(a) => (f.reduce)(ReduceKind::Max, group_values(k, l, i, a)),
        BNode::WgReduceMinF32(a) => (f.reduce)(ReduceKind::Min, group_values(k, l, i, a)),
        BNode::WaveReduceAddF32(a) => (f.reduce)(ReduceKind::Add, wave_values(k, l, t, i, a)),
        BNode::WaveReduceMaxF32(a) => (f.reduce)(ReduceKind::Max, wave_values(k, l, t, i, a)),
        BNode::CvtPkBf16F32 { lo, hi } => packed(v(lo), v(hi)),
        BNode::ExtractF32 { src, idx } => if src.0 < i {
            fragment(k, l, t, src.0 as int)[idx as int]
        } else {
            0
        },
        BNode::LdsAlloc { .. } => (l.space)(i),
        BNode::LdsLoad { offset, .. } => (l.shared)(v(offset) as int),
        BNode::ForBegin { .. } | BNode::ForAccBegin { .. } => l.turn,
        BNode::ForAccPhi { begin_node } | BNode::ForAccResult { begin_node } => (l.carried)(
            begin_node as int,
            t,
        ),
        _ => arbitrary(),
    }
}

/// The values of an earlier node for all threads of the workgroup.
pub open spec fn group_values(k: BlockState, l: Launch, i: int, a: BVal) -> Seq<u32>
    decreases i, 0int,
{
    Seq::new(
        k.block_size as nat,
        |u: int|
            if a.0 < i {
                value(k, l, u as u32, a.0 as int)
            } else {
                0
            },
    )
}

/// The values of an earlier node for all threads of the wave of a thread.
pub open spec fn wave_values(k: BlockState, l: Launch, t: u32, i: int, a: BVal) -> Seq<u32>
    decreases i, 0int,
{
    Seq::new(
        32,
        |j: int|
            if a.0 < i {
                value(k, l, wave_lane(t, j), a.0 as int)
            } else {
                0
            },
    )
}

/// The eight words of node `i` for thread `t`, if it is one on matrix registers.
pub open spec fn fragment(k: BlockState, l: Launch, t: u32, i: int) -> Seq<u32>
    decreases i, 1int,
{
    match k.nodes[i] {
        BNode::ZeroAcc => Seq::new(8, |j: int| 0u32),
        BNode::SplatFragment(a) => {
            let x = if a.0 < i {
                value(k, l, t, a.0 as int)
            } else {
                0
            };
            Seq::new(8, |j: int| x)
        },
        BNode::Wmma { a, b, c } => (l.product)(
            wave_fragments(k, l, t, i, a),
            wave_fragments(k, l, t, i, b),
            wave_fragments(k, l, t, i, c),
            t % 32,
        ),
        BNode::ForAccPhi { begin_node } | BNode::ForAccResult { begin_node } => (l.carried_words)(
            begin_node as int,
            t,
        ),
        _ => arbitrary(),
    }
}

/// The words of an earlier node on matrix registers, for all threads of the wave of a thread.
pub open spec fn wave_fragments(
    k: BlockState,
    l: Launch,
    t: u32,
    i: int,
    a: BVal,
) -> Seq<Seq<u32>>
    decreases i, 0int,
{
    Seq::new(
        32,
        |j: int|
            if a.0 < i {
                fragment(k, l, wave_lane(t, j), a.0 as int)
            } else {
                Seq::empty()
            },
    )
}

/// What a thread does to memory: the pointer argument by its node, the place behind it, and
/// the word.
pub struct Access {
    pub ptr: int,
    pub place: int,
    pub word: u32,
}

/// The access with given operands, if the mask is set.
pub open spec fn access(
    k: BlockState,
    l: Launch,
    t: u32,
    ptr: BVal,
    place: BVal,
    word: BVal,
    mask: BVal,
) -> Option<Access> {
    if value(k, l, t, mask.0 as int) != 0 {
        Some(
            Access {
                ptr: value(k, l, t, ptr.0 as int) as int,
                place: value(k, l, t, place.0 as int) as int,
                word: value(k, l, t, word.0 as int),
            },
        )
    } else {
        None
    }
}

/// What thread `t` stores at node `i`: a word, or for bf16 the upper half of one.
pub open spec fn stored(k: BlockState, l: Launch, t: u32, i: int) -> Option<Access> {
    match k.nodes[i] {
        BNode::Store { ptr, offsets, val, mask } => access(k, l, t, ptr, offsets, val, mask),
        BNode::StoreBf16 { ptr, offsets, val, mask } => match access(
            k,
            l,
            t,
            ptr,
            offsets,
            val,
            mask,
        ) {
            Some(a) => Some(Access { word: (a.word / 0x1_0000) as u32, ..a }),
            None => None,
        },
        _ => None,
    }
}

/// What thread `t` stores in the local data share at node `i`: a place and a word.
pub open spec fn shared_store(k: BlockState, l: Launch, t: u32, i: int) -> Option<(int, u32)> {
    match k.nodes[i] {
        BNode::LdsStore { offset, val, .. } => Some(
            (value(k, l, t, offset.0 as int) as int, value(k, l, t, val.0 as int)),
        ),
        _ => None,
    }
}

/// What thread `t` adds to memory at node `i`.
pub open spec fn added(k: BlockState, l: Launch, t: u32, i: int) -> Option<Access> {
    match k.nodes[i] {
        BNode::AtomicAddF32 { ptr, offsets, val, mask } => access(k, l, t, ptr, offsets, val, mask),
        _ => None,
    }
}

/// The value of a product that fits a word.
pub proof fn lemma_product(
    k: BlockState,
    l: Launch,
    t: u32,
    i: int,
    a: BVal,
    b: BVal,
    x: int,
    y: int,
)
    requires
        k.nodes[i] == BNode::<Seq<char>>::MulU32(a, b),
        a.0 < i,
        b.0 < i,
        value(k, l, t, a.0 as int) == x,
        value(k, l, t, b.0 as int) == y,
        x * y <= u32::MAX,
    ensures
        value(k, l, t, i) == x * y,
        0 <= x * y,
{
    assert(0 <= x * y) by (nonlinear_arith)
        requires
            0 <= x,
            0 <= y,
    ;
}

/// What a workgroup reduces: the values of its threads.
pub proof fn lemma_group_values(k: BlockState, l: Launch, i: int, a: BVal, xs: Seq<u32>)
    requires
        a.0 < i,
        xs.len() == k.block_size,
        forall|u: u32| u < k.block_size ==> #[trigger] value(k, l, u, a.0 as int) == xs[u as int],
    ensures
        group_values(k, l, i, a) == xs,
{
    let all = group_values(k, l, i, a);
    assert forall|u: int| 0 <= u < all.len() implies #[trigger] all[u] == xs[u] by {
        assert(value(k, l, u as u32, a.0 as int) == xs[u]);
    }
    assert(all =~= xs);
}

/// Nodes that are added later do not change the values of earlier ones.
pub proof fn values_stay(k: BlockState, m: BlockState, l: Launch, t: u32, i: int)
    requires
        0 <= i < k.nodes.len() <= m.nodes.len(),
        k.block_size == m.block_size,
        k.block_x == m.block_x,
        forall|j: int| 0 <= j <= i ==> k.nodes[j] == #[trigger] m.nodes[j],
    ensures
        value(k, l, t, i) == value(m, l, t, i),
    decreases i, 1int,
{
    assert(k.nodes[i] == m.nodes[i]);
    let ops = operands(k.nodes[i]);
    if ops.len() > 0 {
        lemma_groups_stay(k, m, l, i, ops[0]);
        lemma_waves_stay(k, m, l, t, i, ops[0]);
        if ops[0].0 < i {
            values_stay(k, m, l, t, ops[0].0 as int);
            fragments_stay(k, m, l, t, ops[0].0 as int);
        }
    }
    if ops.len() > 1 && ops[1].0 < i {
        values_stay(k, m, l, t, ops[1].0 as int);
    }
    if ops.len() > 2 && ops[2].0 < i {
        values_stay(k, m, l, t, ops[2].0 as int);
    }
}

proof fn lemma_groups_stay(k: BlockState, m: BlockState, l: Launch, i: int, a: BVal)
    requires
        0 <= i < k.nodes.len() <= m.nodes.len(),
        k.block_size == m.block_size,
        k.block_x == m.block_x,
        forall|j: int| 0 <= j <= i ==> k.nodes[j] == #[trigger] m.nodes[j],
    ensures
        group_values(k, l, i, a) == group_values(m, l, i, a),
    decreases i, 0int,
{
    let xs = group_values(m, l, i, a);
    if a.0 < i {
        assert forall|u: u32| u < k.block_size implies #[trigger] value(k, l, u, a.0 as int)
            == xs[u as int] by {
            values_stay(k, m, l, u, a.0 as int);
            assert(value(m, l, u, a.0 as int) == xs[u as int]);
        }
        lemma_group_values(k, l, i, a, xs);
    } else {
        assert(group_values(k, l, i, a) =~= xs);
    }
}

proof fn lemma_waves_stay(k: BlockState, m: BlockState, l: Launch, t: u32, i: int, a: BVal)
    requires
        0 <= i < k.nodes.len() <= m.nodes.len(),
        k.block_size == m.block_size,
        k.block_x == m.block_x,
        forall|j: int| 0 <= j <= i ==> k.nodes[j] == #[trigger] m.nodes[j],
    ensures
        wave_values(k, l, t, i, a) == wave_values(m, l, t, i, a),
        wave_fragments(k, l, t, i, a) == wave_fragments(m, l, t, i, a),
    decreases i, 0int,
{
    let xs = wave_values(k, l, t, i, a);
    let ys = wave_values(m, l, t, i, a);
    let fs = wave_fragments(k, l, t, i, a);
    let gs = wave_fragments(m, l, t, i, a);
    if a.0 < i {
        assert forall|j: int| 0 <= j < 32 implies #[trigger] xs[j] == ys[j] by {
            values_stay(k, m, l, wave_lane(t, j), a.0 as int);
        }
        assert forall|j: int| 0 <= j < 32 implies #[trigger] fs[j] == gs[j] by {
            fragments_stay(k, m, l, wave_lane(t, j), a.0 as int);
        }
    }
    assert(xs =~= ys);
    assert(fs =~= gs);
}

/// Nodes that are added later do not change the matrix registers of earlier ones.
pub proof fn fragments_stay(k: BlockState, m: BlockState, l: Launch, t: u32, i: int)
    requires
        0 <= i < k.nodes.len() <= m.nodes.len(),
        k.block_size == m.block_size,
        k.block_x == m.block_x,
        forall|j: int| 0 <= j <= i ==> k.nodes[j] == #[trigger] m.nodes[j],
    ensures
        fragment(k, l, t, i) == fragment(m, l, t, i),
    decreases i, 1int,
{
    assert(k.nodes[i] == m.nodes[i]);
    match k.nodes[i] {
        BNode::SplatFragment(a) => {
            if a.0 < i {
                values_stay(k, m, l, t, a.0 as int);
            }
        },
        BNode::Wmma { a, b, c } => {
            lemma_waves_stay(k, m, l, t, i, a);
            lemma_waves_stay(k, m, l, t, i, b);
            lemma_waves_stay(k, m, l, t, i, c);
        },
        _ => {},
    }
}

// ── Functions built from nodes ──
/// The value of the last node.
pub open spec fn last_value(k: BlockState, l: Launch, t: u32) -> u32 {
    value(k, l, t, k.nodes.len() - 1)
}

/// e to the power of `x`.
pub open spec fn exp_of(f: Floats, x: u32) -> u32 {
    f.apply(UnaryOpKind::Exp2, f.times(x, LOG2_E))
}

/// `1 / (1 + exp(-x))`.
pub open spec fn sigmoid_of(f: Floats, x: u32) -> u32 {
    f.apply(UnaryOpKind::Rcp, f.plus(ONE, exp_of(f, f.apply(UnaryOpKind::Neg, x))))
}

/// `2 * sigmoid(2x) - 1`.
pub open spec fn tanh_of(f: Floats, x: u32) -> u32 {
    f.minus(f.times(sigmoid_of(f, f.times(x, TWO)), TWO), ONE)
}

/// `0.5x * (1 + tanh(sqrt(2/π) * (x + 0.044715x³)))`.
pub open spec fn gelu_of(f: Floats, x: u32) -> u32 {
    let cube = f.times(f.times(x, x), x);
    let inner = f.times(SQRT_2_OVER_PI, f.plus(x, f.times(GELU_CUBE, cube)));
    f.times(f.times(HALF, x), f.plus(ONE, tanh_of(f, inner)))
}

proof fn lemma_exp(k: BlockState, l: Launch, t: u32, x: BVal)
    requires
        k.typed(x, BType::F32),
        k.nodes.len() + 3 <= usize::MAX,
    ensures
        last_value(k.exp(x), l, t) == exp_of(l.floats, value(k, l, t, x.0 as int)),
{
    let n = k.nodes.len() as int;
    let m = k.exp(x);
    values_stay(k, m, l, t, x.0 as int);
    assert(m.nodes[n] == BNode::<Seq<char>>::ConstF32(LOG2_E));
    assert(m.nodes[n + 1] == BNode::<Seq<char>>::MulF32(x, BVal(n as usize)));
    assert(m.nodes[n + 2] == BNode::<Seq<char>>::ExpF32(BVal((n + 1) as usize)));
    assert(value(m, l, t, n) == LOG2_E);
    assert(value(m, l, t, n + 1) == l.floats.times(value(k, l, t, x.0 as int), LOG2_E));
}

/// `sigmoid` gives `1 / (1 + exp(-x))`.
pub proof fn sigmoid_value(k: BlockState, l: Launch, t: u32, x: BVal)
    requires
        k.typed(x, BType::F32),
        k.nodes.len() + 7 <= usize::MAX,
    ensures
        last_value(k.sigmoid(x), l, t) == sigmoid_of(
            l.floats,
            value(k, l, t, x.0 as int),
        ),
{
    let n = k.nodes.len() as int;
    let f = l.floats;
    let a = k.with_node(BNode::NegF32(x));
    let b = a.exp(BVal(n as usize));
    let m = k.sigmoid(x);
    values_stay(k, a, l, t, x.0 as int);
    assert(value(a, l, t, n) == f.apply(UnaryOpKind::Neg, value(k, l, t, x.0 as int)));
    lemma_exp(a, l, t, BVal(n as usize));
    values_stay(b, m, l, t, n + 3);
    assert(m.nodes[n + 4] == BNode::<Seq<char>>::ConstF32(ONE));
    assert(m.nodes[n + 5] == BNode::<Seq<char>>::AddF32(
        BVal((n + 4) as usize),
        BVal((n + 3) as usize),
    ));
    assert(m.nodes[n + 6] == BNode::<Seq<char>>::RcpF32(BVal((n + 5) as usize)));
    assert(value(m, l, t, n + 4) == ONE);
    assert(value(m, l, t, n + 5) == f.plus(ONE, value(m, l, t, n + 3)));
}

/// `silu` gives `x * sigmoid(x)`.
pub proof fn silu_value(k: BlockState, l: Launch, t: u32, x: BVal)
    requires
        k.typed(x, BType::F32),
        k.nodes.len() + 8 <= usize::MAX,
    ensures
        ({
            let v = value(k, l, t, x.0 as int);
            last_value(k.silu(x), l, t) == l.floats.times(
                v,
                sigmoid_of(l.floats, v),
            )
        }),
{
    let n = k.nodes.len() as int;
    let b = k.sigmoid(x);
    let m = k.silu(x);
    sigmoid_value(k, l, t, x);
    values_stay(b, m, l, t, n + 6);
    values_stay(k, m, l, t, x.0 as int);
    assert(b.nodes[x.0 as int] == k.nodes[x.0 as int]);
    assert(m.nodes[n + 7] == BNode::<Seq<char>>::MulF32(x, BVal((n + 6) as usize)));
}

/// `tanh` gives `2 * sigmoid(2x) - 1`.
pub proof fn tanh_value(k: BlockState, l: Launch, t: u32, x: BVal)
    requires
        k.typed(x, BType::F32),
        k.nodes.len() + 13 <= usize::MAX,
    ensures
        last_value(k.tanh(x), l, t) == tanh_of(
            l.floats,
            value(k, l, t, x.0 as int),
        ),
{
    let n = k.nodes.len() as int;
    let f = l.floats;
    let v = value(k, l, t, x.0 as int);
    let a = k.with_node(BNode::ConstF32(TWO)).mul(x, BVal(n as usize));
    let b = a.sigmoid(BVal((n + 1) as usize));
    let m = k.tanh(x);
    values_stay(k, a, l, t, x.0 as int);
    assert(a.nodes[n] == BNode::<Seq<char>>::ConstF32(TWO));
    assert(a.nodes[n + 1] == BNode::<Seq<char>>::MulF32(x, BVal(n as usize)));
    assert(value(a, l, t, n) == TWO);
    assert(value(a, l, t, n + 1) == f.times(v, TWO));
    sigmoid_value(a, l, t, BVal((n + 1) as usize));
    assert(m.nodes[n + 9] == BNode::<Seq<char>>::ConstF32(TWO));
    assert(m.nodes[n + 10] == BNode::<Seq<char>>::MulF32(
        BVal((n + 8) as usize),
        BVal((n + 9) as usize),
    ));
    assert(m.nodes[n + 11] == BNode::<Seq<char>>::ConstF32(ONE));
    assert(m.nodes[n + 12] == BNode::<Seq<char>>::SubF32(
        BVal((n + 10) as usize),
        BVal((n + 11) as usize),
    ));
    values_stay(b, m, l, t, n + 8);
    assert(value(m, l, t, n + 9) == TWO && value(m, l, t, n + 11) == ONE);
    assert(value(m, l, t, n + 10) == f.times(value(m, l, t, n + 8), TWO));
}

/// `gelu` gives the product of `0.5x` and `1 + tanh(sqrt(2/π) * (x + 0.044715x³))`.
pub proof fn gelu_value(k: BlockState, l: Launch, t: u32, x: BVal)
    requires
        k.typed(x, BType::F32),
        k.nodes.len() + 25 <= usize::MAX,
    ensures
        last_value(k.gelu(x), l, t) == gelu_of(
            l.floats,
            value(k, l, t, x.0 as int),
        ),
{
    let n = k.nodes.len() as int;
    let f = l.floats;
    let v = value(k, l, t, x.0 as int);
    let at = |i: int| BVal((n + i) as usize);
    let a = k.with_node(BNode::ConstF32(HALF)).with_node(BNode::ConstF32(ONE)).with_node(
        BNode::ConstF32(GELU_CUBE),
    ).with_node(BNode::ConstF32(SQRT_2_OVER_PI)).mul(x, x).mul(at(4), x);
    let b = a.with_node(BNode::MulF32(at(2), at(5))).add(x, at(6));
    let c = b.with_node(BNode::MulF32(at(3), at(7)));
    let d = c.tanh(at(8));
    let m = k.gelu(x);
    assert(c.nodes[x.0 as int] == k.nodes[x.0 as int]);
    assert(c.nodes[n] == BNode::<Seq<char>>::ConstF32(HALF));
    assert(c.nodes[n + 1] == BNode::<Seq<char>>::ConstF32(ONE));
    assert(c.nodes[n + 2] == BNode::<Seq<char>>::ConstF32(GELU_CUBE));
    assert(c.nodes[n + 3] == BNode::<Seq<char>>::ConstF32(SQRT_2_OVER_PI));
    assert(c.nodes[n + 4] == BNode::<Seq<char>>::MulF32(x, x));
    assert(c.nodes[n + 5] == BNode::<Seq<char>>::MulF32(at(4), x));
    assert(c.nodes[n + 6] == BNode::<Seq<char>>::MulF32(at(2), at(5)));
    assert(c.nodes[n + 7] == BNode::<Seq<char>>::AddF32(x, at(6)));
    assert(c.nodes[n + 8] == BNode::<Seq<char>>::MulF32(at(3), at(7)));
    values_stay(k, c, l, t, x.0 as int);
    let w = |i: int| value(c, l, t, i);
    assert(w(n) == HALF && w(n + 1) == ONE && w(n + 2) == GELU_CUBE && w(n + 3) == SQRT_2_OVER_PI);
    assert(w(n + 4) == f.times(v, v));
    assert(w(n + 5) == f.times(w(n + 4), v));
    assert(w(n + 6) == f.times(GELU_CUBE, w(n + 5)));
    assert(w(n + 7) == f.plus(v, w(n + 6)));
    assert(w(n + 8) == f.times(SQRT_2_OVER_PI, w(n + 7)));
    tanh_value(c, l, t, at(8));
    assert(m.nodes[n + 22] == BNode::<Seq<char>>::AddF32(at(1), at(21)));
    assert(m.nodes[n + 23] == BNode::<Seq<char>>::MulF32(at(0), x));
    assert(m.nodes[n + 24] == BNode::<Seq<char>>::MulF32(at(23), at(22)));
    values_stay(d, m, l, t, n + 21);
    values_stay(c, m, l, t, n);
    values_stay(c, m, l, t, n + 1);
    values_stay(k, m, l, t, x.0 as int);
    assert(value(m, l, t, n + 22) == f.plus(ONE, tanh_of(f, w(n + 8))));
    assert(value(m, l, t, n + 23) == f.times(HALF, v));
}

} // verus!
