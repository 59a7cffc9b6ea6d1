//! What a function on tiles computes.
//!
//! Every value of a function is defined once, so what a run computes is told by what its values
//! are worth: each operation says what its result is worth, given what its operands are. What
//! comes into the head of a loop differs from turn to turn; a run is looked at in one turn.
use vstd::prelude::*;

use crate::lanes::{Access, Floats, Launch, bit, packed, wave_lane, widened, wrapped};
use crate::tile_ssa::{BinOpKind, CmpOpKind, FuncState, ScalarDType, TileOp, TileType, Value};

verus! {

/// What the values of a function are worth.
pub struct Worth {
    /// A word, by value and thread.
    pub word: spec_fn(Value, u32) -> u32,
    /// The words of matrix registers, by value and thread.
    pub words: spec_fn(Value, u32) -> Seq<u32>,
    /// The cells of a matrix, by value, row and column.
    pub cell: spec_fn(Value, int, int) -> u32,
}

/// One workgroup of a call of a function.
pub struct Call {
    /// Memory, the workgroup and its floats.
    pub launch: Launch,
    /// The arguments, in order. For a pointer, the number that tells it from others.
    pub args: spec_fn(int) -> u32,
    /// Where the parts of the local data share lie.
    pub space: spec_fn(Value) -> u32,
}

// ── Arithmetic ──
/// The larger of two words.
pub open spec fn larger(x: u32, y: u32) -> u32 {
    if x >= y {
        x
    } else {
        y
    }
}

/// The smaller of two words.
pub open spec fn smaller(x: u32, y: u32) -> u32 {
    if x <= y {
        x
    } else {
        y
    }
}

/// An operation on two elements of a kind: numbers for words, rounded numbers for floats, truth
/// for masks; shifts and the like are on bits.
pub open spec fn calculated(kind: BinOpKind, d: ScalarDType, fl: Floats, x: u32, y: u32) -> u32 {
    match kind {
        BinOpKind::Add => if d == ScalarDType::U32 {
            wrapped(x + y)
        } else {
            (fl.binary)(BinOpKind::Add, x, y)
        },
        BinOpKind::Sub => if d == ScalarDType::U32 {
            wrapped(x - y)
        } else {
            (fl.binary)(BinOpKind::Sub, x, y)
        },
        BinOpKind::Mul => if d == ScalarDType::U32 {
            wrapped(x * y)
        } else {
            (fl.binary)(BinOpKind::Mul, x, y)
        },
        BinOpKind::Div => if d == ScalarDType::U32 {
            (x as int / y as int) as u32
        } else {
            (fl.binary)(BinOpKind::Div, x, y)
        },
        BinOpKind::Max => if d == ScalarDType::U32 {
            larger(x, y)
        } else {
            (fl.binary)(BinOpKind::Max, x, y)
        },
        BinOpKind::Min => if d == ScalarDType::U32 {
            smaller(x, y)
        } else {
            (fl.binary)(BinOpKind::Min, x, y)
        },
        BinOpKind::Shr => x >> y,
        BinOpKind::Shl => x << y,
        BinOpKind::And => if d == ScalarDType::Bool {
            bit(x != 0 && y != 0)
        } else {
            x & y
        },
        BinOpKind::Or => x | y,
        BinOpKind::Xor => x ^ y,
    }
}

/// A comparison of two elements of a kind.
pub open spec fn compared(kind: CmpOpKind, d: ScalarDType, fl: Floats, x: u32, y: u32) -> bool {
    match kind {
        CmpOpKind::Lt => if d == ScalarDType::U32 {
            x < y
        } else {
            (fl.less)(x, y)
        },
        CmpOpKind::Ge => if d == ScalarDType::U32 {
            x >= y
        } else {
            (fl.less)(y, x) || (fl.same)(x, y)
        },
        CmpOpKind::Eq => if d == ScalarDType::U32 {
            x == y
        } else {
            (fl.same)(x, y)
        },
    }
}

/// An element of one kind as one of another. A bf16 is the upper half of a float.
pub open spec fn converted(from: ScalarDType, to: ScalarDType, fl: Floats, x: u32) -> u32 {
    match (from, to) {
        (ScalarDType::U32, ScalarDType::F32) => (fl.of_word)(x),
        (ScalarDType::F32, ScalarDType::U32) => (fl.to_word)(x),
        (ScalarDType::F32, ScalarDType::BF16) => (x as nat / 0x1_0000) as u32,
        (ScalarDType::BF16, ScalarDType::F32) => widened((x % 0x1_0000) as u16),
        _ => x,
    }
}

// ── Operations ──
/// The words of a value in all lanes of the wave of a thread.
pub open spec fn wave_of(w: Worth, v: Value, t: u32) -> Seq<u32> {
    Seq::new(32, |j: int| (w.word)(v, wave_lane(t, j)))
}

/// The words of a value in the first threads.
pub open spec fn group_of(w: Worth, v: Value, n: u32) -> Seq<u32> {
    Seq::new(n as nat, |u: int| (w.word)(v, u as u32))
}

/// What an operation makes its result worth to a thread, if that is a word.
pub open spec fn word_of(op: TileOp, ty: Seq<TileType>, w: Worth, c: Call, t: u32) -> Option<u32> {
    let l = c.launch;
    let fl = l.floats;
    match op {
        TileOp::Arg { index, .. } => Some((c.args)(index as int)),
        TileOp::ProgramId { axis, .. } => Some((l.group)(axis)),
        TileOp::Arange { start, .. } => Some(wrapped(start + t)),
        TileOp::ThreadIdX2D { block_x, .. } => Some((t as int % block_x as int) as u32),
        TileOp::ThreadIdY2D { block_x, .. } => Some((t as int / block_x as int) as u32),
        TileOp::ConstU32 { value, .. } => Some(value),
        TileOp::ConstF32 { bits, .. } => Some(bits),
        TileOp::Binary { kind, lhs, rhs, .. } => Some(
            calculated(kind, ty[lhs.0 as int].dtype, fl, (w.word)(lhs, t), (w.word)(rhs, t)),
        ),
        TileOp::Unary { kind, src, .. } => Some((fl.unary)(kind, (w.word)(src, t))),
        TileOp::Compare { kind, lhs, rhs, .. } => Some(
            bit(compared(kind, ty[lhs.0 as int].dtype, fl, (w.word)(lhs, t), (w.word)(rhs, t))),
        ),
        TileOp::Fma { a, b, c: addend, .. } => Some(
            (fl.fused)((w.word)(a, t), (w.word)(b, t), (w.word)(addend, t)),
        ),
        TileOp::Select { mask, on_true, on_false, .. } => Some(
            if (w.word)(mask, t) != 0 {
                (w.word)(on_true, t)
            } else {
                (w.word)(on_false, t)
            },
        ),
        TileOp::Load { result, ptr, index, mask, other } => Some(
            if (w.word)(mask, t) == 0 {
                (w.word)(other, t)
            } else if ty[result.0 as int].dtype == ScalarDType::BF16 {
                (l.halves)((w.word)(ptr, t) as int, (w.word)(index, t) as int) as u32
            } else {
                (l.words)((w.word)(ptr, t) as int, (w.word)(index, t) as int)
            },
        ),
        TileOp::Cast { result, src } => Some(
            converted(
                ty[src.0 as int].dtype,
                ty[result.0 as int].dtype,
                fl,
                (w.word)(src, t),
            ),
        ),
        TileOp::Reduce { kind, src, .. } => Some(
            (fl.reduce)(kind, wave_of(w, src, t)),
        ),
        TileOp::WgReduce { kind, src, block_size, .. } => Some(
            (fl.reduce)(kind, group_of(w, src, block_size)),
        ),
        TileOp::LdsAlloc { result, .. } => Some((c.space)(result)),
        TileOp::LdsLoad { offset, .. } => Some((l.shared)((w.word)(offset, t) as int)),
        TileOp::CvtPkBf16F32 { lo, hi, .. } => Some(packed((w.word)(lo, t), (w.word)(hi, t))),
        TileOp::ExtractF32 { src, idx, .. } => Some((w.words)(src, t)[idx as int]),
        _ => None,
    }
}

/// The matrix registers of a value in all lanes of the wave of a thread.
pub open spec fn wave_words(w: Worth, v: Value, t: u32) -> Seq<Seq<u32>> {
    Seq::new(32, |j: int| (w.words)(v, wave_lane(t, j)))
}

/// What an operation makes its result worth to a thread, if that is matrix registers.
pub open spec fn words_of(op: TileOp, w: Worth, c: Call, t: u32) -> Option<Seq<u32>> {
    match op {
        TileOp::ZeroAcc { .. } => Some(Seq::new(8, |j: int| 0u32)),
        TileOp::SplatFragment { src, .. } => {
            let x = (w.word)(src, t);
            Some(Seq::new(8, |j: int| x))
        },
        TileOp::Wmma { a, b, c: sum, .. } => Some(
            (c.launch.product)(wave_words(w, a, t), wave_words(w, b, t), wave_words(w, sum, t), t
                % 32),
        ),
        _ => None,
    }
}

/// The place of a cell of a matrix in memory that starts at a row and a column.
pub open spec fn cell_place(
    w: Worth,
    row: Value,
    col: Value,
    stride: Value,
    i: int,
    j: int,
) -> int {
    ((w.word)(row, 0) + i) * (w.word)(stride, 0) + (w.word)(col, 0) + j
}

/// Row `i` of a matrix, up to some column.
pub open spec fn row_of(w: Worth, v: Value, i: int, len: nat) -> Seq<u32> {
    Seq::new(len, |j: int| (w.cell)(v, i, j))
}

/// What an operation makes a cell of its result worth, if that is a matrix. A product adds to
/// each cell what a row of one matrix and a row of the other give, column by column.
pub open spec fn cell_of(
    op: TileOp,
    ty: Seq<TileType>,
    w: Worth,
    c: Call,
    i: int,
    j: int,
) -> Option<u32> {
    match op {
        TileOp::Splat { bits, .. } => Some(bits),
        TileOp::TileLoad2D { ptr, row, col, stride, .. } => Some(
            widened(
                (c.launch.halves)(
                    (w.word)(ptr, 0) as int,
                    cell_place(w, row, col, stride, i, j),
                ),
            ),
        ),
        TileOp::TileDot { a, b, acc, .. } => {
            let depth = ty[a.0 as int].cols as nat;
            Some(
                (c.launch.floats.dot)(
                    (w.cell)(acc, i, j),
                    row_of(w, a, i, depth),
                    row_of(w, b, j, depth),
                ),
            )
        },
        _ => None,
    }
}

/// Whether the result of an operation is worth to a thread what the operation makes of its
/// operands.
pub open spec fn worth_word(op: TileOp, ty: Seq<TileType>, w: Worth, c: Call, t: u32) -> bool {
    word_of(op, ty, w, c, t) matches Some(x) ==> (op.defines() matches Some(v) ==> (w.word)(v, t)
        == x)
}

/// The same for matrix registers.
pub open spec fn worth_words(op: TileOp, w: Worth, c: Call, t: u32) -> bool {
    words_of(op, w, c, t) matches Some(x) ==> (op.defines() matches Some(v) ==> (w.words)(v, t)
        == x)
}

/// The same for a cell of a matrix.
pub open spec fn worth_cell(
    op: TileOp,
    ty: Seq<TileType>,
    w: Worth,
    c: Call,
    i: int,
    j: int,
) -> bool {
    cell_of(op, ty, w, c, i, j) matches Some(x) ==> (op.defines() matches Some(v) ==> (w.cell)(
        v,
        i,
        j,
    ) == x)
}

/// Whether the result of an operation is worth what the operation makes of its operands.
pub open spec fn says(op: TileOp, ty: Seq<TileType>, w: Worth, c: Call) -> bool {
    &&& forall|t: u32| #[trigger] worth_word(op, ty, w, c, t)
    &&& forall|t: u32| #[trigger] worth_words(op, w, c, t)
    &&& forall|i: int, j: int| #[trigger] worth_cell(op, ty, w, c, i, j)
}

/// Whether a function has an operation.
pub open spec fn has_op(f: FuncState, op: TileOp) -> bool {
    exists|b: int, j: int|
        0 <= b < f.blocks.len() && 0 <= j < f.blocks[b].ops.len() && #[trigger] f.blocks[b].ops[j]
            == op
}

/// Whether values are worth what all operations of a function make of them.
pub open spec fn computes(f: FuncState, ty: Seq<TileType>, w: Worth, c: Call) -> bool {
    forall|op: TileOp| #[trigger] has_op(f, op) ==> says(op, ty, w, c)
}

// ── Effects ──
/// What a thread does that is no value.
pub enum Effect {
    /// Stores a word, or for bf16 half of one, if its mask is set.
    Store { access: Option<Access>, half: bool },
    /// Adds a float to memory, if its mask is set.
    Add { access: Option<Access> },
    /// Stores a word in the local data share.
    SharedStore { base: u32, place: int, word: u32 },
    /// Reads the local data share.
    SharedLoad { base: u32, place: int },
    /// Asks for bytes of the local data share.
    Space { size: u32 },
    /// Waits for the other threads.
    Barrier,
    /// Goes on only if the mask is set.
    If { mask: bool },
    /// Goes on only if the mask was not set.
    Else,
    /// Goes on as before the mask.
    EndIf,
    /// Stores a matrix.
    Tile,
}

/// The access of an operation with given operands, if the mask is set.
pub open spec fn tile_access(
    w: Worth,
    t: u32,
    ptr: Value,
    index: Value,
    value: Value,
    mask: Value,
) -> Option<Access> {
    if (w.word)(mask, t) != 0 {
        Some(
            Access {
                ptr: (w.word)(ptr, t) as int,
                place: (w.word)(index, t) as int,
                word: (w.word)(value, t),
            },
        )
    } else {
        None
    }
}

/// The effect of an operation, if it has one.
pub open spec fn effect_of(op: TileOp, ty: Seq<TileType>, w: Worth, t: u32) -> Option<Effect> {
    match op {
        TileOp::Store { ptr, index, value, mask } => Some(
            Effect::Store {
                access: tile_access(w, t, ptr, index, value, mask),
                half: ty[value.0 as int].dtype == ScalarDType::BF16,
            },
        ),
        TileOp::AtomicAddF32 { ptr, index, value, mask } => Some(
            Effect::Add { access: tile_access(w, t, ptr, index, value, mask) },
        ),
        TileOp::LdsStore { base, offset, value } => Some(
            Effect::SharedStore {
                base: (w.word)(base, t),
                place: (w.word)(offset, t) as int,
                word: (w.word)(value, t),
            },
        ),
        TileOp::LdsLoad { base, offset, .. } => Some(
            Effect::SharedLoad { base: (w.word)(base, t), place: (w.word)(offset, t) as int },
        ),
        TileOp::LdsAlloc { size, .. } => Some(Effect::Space { size }),
        TileOp::Barrier => Some(Effect::Barrier),
        TileOp::ExecMaskPush { mask } => Some(Effect::If { mask: (w.word)(mask, t) != 0 }),
        TileOp::ExecMaskFlip => Some(Effect::Else),
        TileOp::ExecMaskPop => Some(Effect::EndIf),
        TileOp::TileStore2D { .. } => Some(Effect::Tile),
        _ => None,
    }
}

/// The effects of operations, in order.
pub open spec fn effects_of(ops: Seq<TileOp>, ty: Seq<TileType>, w: Worth, t: u32) -> Seq<Effect>
    decreases ops.len(),
{
    if ops.len() == 0 {
        Seq::empty()
    } else {
        let rest = effects_of(ops.drop_last(), ty, w, t);
        match effect_of(ops.last(), ty, w, t) {
            Some(e) => rest.push(e),
            None => rest,
        }
    }
}

} // verus!
