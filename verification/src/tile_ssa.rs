//! Functions on tiles in single-assignment form.
//!
//! A `TileFunc` is a list of blocks of operations. Each operation names the values it uses
//! and, where it has one, its result. Every value has a type and is defined once.
use vstd::prelude::*;

use crate::text::{dec, hex_padded, push_dec, push_hex_padded};

verus! {

/// A value of a function.
#[derive(Clone, Copy, Debug, PartialEq, Eq, Structural)]
pub struct Value(pub usize);

/// What one element of a value is.
#[derive(Clone, Copy, Debug, PartialEq, Eq, Structural)]
pub enum ScalarDType {
    F32,
    U32,
    BF16,
    Bool,
    Ptr,
}

/// How an element type is written.
pub open spec fn dtype_text(k: ScalarDType) -> Seq<char> {
    match k {
        ScalarDType::F32 => "f32"@,
        ScalarDType::U32 => "u32"@,
        ScalarDType::BF16 => "bf16"@,
        ScalarDType::Bool => "bool"@,
        ScalarDType::Ptr => "ptr"@,
    }
}

impl ScalarDType {
    /// How an element type is written.
    pub fn name(self) -> (r: &'static str)
        ensures
            r@ == dtype_text(self),
    {
        match self {
            ScalarDType::F32 => "f32",
            ScalarDType::U32 => "u32",
            ScalarDType::BF16 => "bf16",
            ScalarDType::Bool => "bool",
            ScalarDType::Ptr => "ptr",
        }
    }
}

/// Operations on two values.
#[derive(Clone, Copy, Debug, PartialEq, Eq, Structural)]
pub enum BinOpKind {
    Add,
    Sub,
    Mul,
    Div,
    Max,
    Min,
    Shr,
    Shl,
    And,
    Or,
    Xor,
}

/// How an operation is written.
pub open spec fn binary_text(k: BinOpKind) -> Seq<char> {
    match k {
        BinOpKind::Add => "Add"@,
        BinOpKind::Sub => "Sub"@,
        BinOpKind::Mul => "Mul"@,
        BinOpKind::Div => "Div"@,
        BinOpKind::Max => "Max"@,
        BinOpKind::Min => "Min"@,
        BinOpKind::Shr => "Shr"@,
        BinOpKind::Shl => "Shl"@,
        BinOpKind::And => "And"@,
        BinOpKind::Or => "Or"@,
        BinOpKind::Xor => "Xor"@,
    }
}

impl BinOpKind {
    /// How an operation is written.
    pub fn name(self) -> (r: &'static str)
        ensures
            r@ == binary_text(self),
    {
        match self {
            BinOpKind::Add => "Add",
            BinOpKind::Sub => "Sub",
            BinOpKind::Mul => "Mul",
            BinOpKind::Div => "Div",
            BinOpKind::Max => "Max",
            BinOpKind::Min => "Min",
            BinOpKind::Shr => "Shr",
            BinOpKind::Shl => "Shl",
            BinOpKind::And => "And",
            BinOpKind::Or => "Or",
            BinOpKind::Xor => "Xor",
        }
    }
}

/// Operations on one value.
#[derive(Clone, Copy, Debug, PartialEq, Eq, Structural)]
pub enum UnaryOpKind {
    Exp2,
    Log2,
    Sqrt,
    Rcp,
    Rsqrt,
    Abs,
    Neg,
    Sin,
    Cos,
}

/// How an operation is written.
pub open spec fn unary_text(k: UnaryOpKind) -> Seq<char> {
    match k {
        UnaryOpKind::Exp2 => "Exp2"@,
        UnaryOpKind::Log2 => "Log2"@,
        UnaryOpKind::Sqrt => "Sqrt"@,
        UnaryOpKind::Rcp => "Rcp"@,
        UnaryOpKind::Rsqrt => "Rsqrt"@,
        UnaryOpKind::Abs => "Abs"@,
        UnaryOpKind::Neg => "Neg"@,
        UnaryOpKind::Sin => "Sin"@,
        UnaryOpKind::Cos => "Cos"@,
    }
}

impl UnaryOpKind {
    /// How an operation is written.
    pub fn name(self) -> (r: &'static str)
        ensures
            r@ == unary_text(self),
    {
        match self {
            UnaryOpKind::Exp2 => "Exp2",
            UnaryOpKind::Log2 => "Log2",
            UnaryOpKind::Sqrt => "Sqrt",
            UnaryOpKind::Rcp => "Rcp",
            UnaryOpKind::Rsqrt => "Rsqrt",
            UnaryOpKind::Abs => "Abs",
            UnaryOpKind::Neg => "Neg",
            UnaryOpKind::Sin => "Sin",
            UnaryOpKind::Cos => "Cos",
        }
    }
}

/// Comparisons.
#[derive(Clone, Copy, Debug, PartialEq, Eq, Structural)]
pub enum CmpOpKind {
    Lt,
    Ge,
    Eq,
}

/// How a comparison is written.
pub open spec fn compare_text(k: CmpOpKind) -> Seq<char> {
    match k {
        CmpOpKind::Lt => "lt"@,
        CmpOpKind::Ge => "ge"@,
        CmpOpKind::Eq => "eq"@,
    }
}

impl CmpOpKind {
    /// How a comparison is written.
    pub fn name(self) -> (r: &'static str)
        ensures
            r@ == compare_text(self),
    {
        match self {
            CmpOpKind::Lt => "lt",
            CmpOpKind::Ge => "ge",
            CmpOpKind::Eq => "eq",
        }
    }
}

/// Reductions over many lanes.
#[derive(Clone, Copy, Debug, PartialEq, Eq, Structural)]
pub enum ReduceKind {
    Add,
    Max,
    Min,
}

/// How a reduction over a wave is written.
pub open spec fn wave_text(k: ReduceKind) -> Seq<char> {
    match k {
        ReduceKind::Add => "reduce_add"@,
        ReduceKind::Max => "reduce_max"@,
        ReduceKind::Min => "reduce_min"@,
    }
}

/// How a reduction over a workgroup is written.
pub open spec fn wg_text(k: ReduceKind) -> Seq<char> {
    match k {
        ReduceKind::Add => "wg_reduce_add"@,
        ReduceKind::Max => "wg_reduce_max"@,
        ReduceKind::Min => "wg_reduce_min"@,
    }
}

impl ReduceKind {
    /// How a reduction over a wave is written.
    pub fn wave_name(self) -> (r: &'static str)
        ensures
            r@ == wave_text(self),
    {
        match self {
            ReduceKind::Add => "reduce_add",
            ReduceKind::Max => "reduce_max",
            ReduceKind::Min => "reduce_min",
        }
    }

    /// How a reduction over a workgroup is written.
    pub fn wg_name(self) -> (r: &'static str)
        ensures
            r@ == wg_text(self),
    {
        match self {
            ReduceKind::Add => "wg_reduce_add",
            ReduceKind::Max => "wg_reduce_max",
            ReduceKind::Min => "wg_reduce_min",
        }
    }
}

/// Where the elements of a value lie.
#[derive(Clone, Copy, Debug, PartialEq, Eq, Structural)]
pub enum TensorLayout {
    /// One or several per lane.
    Blocked,
    /// In the local data share.
    Shared,
    /// In the registers of a matrix accumulator.
    MmaAccumulator,
}

impl TensorLayout {
    /// Whether the elements lie in the local data share.
    pub fn is_shared(self) -> (r: bool)
        ensures
            r == (self == TensorLayout::Shared),
    {
        matches!(self, TensorLayout::Shared)
    }

    /// Whether the elements lie in a matrix accumulator.
    pub fn is_mma(self) -> (r: bool)
        ensures
            r == (self == TensorLayout::MmaAccumulator),
    {
        matches!(self, TensorLayout::MmaAccumulator)
    }
}

/// The type of a value: `rows` × `cols` elements.
#[derive(Clone, Copy, Debug, PartialEq, Eq, Structural)]
pub struct TileType {
    pub dtype: ScalarDType,
    pub rows: u32,
    pub cols: u32,
    pub layout: TensorLayout,
}

/// One element.
pub open spec fn scalar_type(dtype: ScalarDType) -> TileType {
    TileType { dtype, rows: 1, cols: 1, layout: TensorLayout::Blocked }
}

/// `n` elements.
pub open spec fn vector_type(n: u32, dtype: ScalarDType) -> TileType {
    TileType { dtype, rows: n, cols: 1, layout: TensorLayout::Blocked }
}

/// A matrix.
pub open spec fn tile_type(
    rows: u32,
    cols: u32,
    dtype: ScalarDType,
    layout: TensorLayout,
) -> TileType {
    TileType { dtype, rows, cols, layout }
}

/// Elements of the first type, as many as the larger of the two has.
pub open spec fn joined_type(a: TileType, b: TileType) -> TileType {
    if a.rows >= b.rows {
        a
    } else {
        TileType { dtype: a.dtype, ..b }
    }
}

impl TileType {
    /// One element.
    pub fn scalar(dtype: ScalarDType) -> (r: Self)
        ensures
            r == scalar_type(dtype),
    {
        TileType { dtype, rows: 1, cols: 1, layout: TensorLayout::Blocked }
    }

    /// `n` elements.
    pub fn vector(n: u32, dtype: ScalarDType) -> (r: Self)
        ensures
            r == vector_type(n, dtype),
    {
        TileType { dtype, rows: n, cols: 1, layout: TensorLayout::Blocked }
    }

    /// A matrix.
    pub fn tile(rows: u32, cols: u32, dtype: ScalarDType, layout: TensorLayout) -> (r: Self)
        ensures
            r == tile_type(rows, cols, dtype, layout),
    {
        TileType { dtype, rows, cols, layout }
    }

    /// Elements of this type, as many as the larger of the two has.
    pub fn join(self, other: TileType) -> (r: TileType)
        ensures
            r == joined_type(self, other),
    {
        if self.rows >= other.rows {
            self
        } else {
            TileType { dtype: self.dtype, ..other }
        }
    }

    /// The same shape with other elements.
    pub fn with_dtype(self, dtype: ScalarDType) -> (r: TileType)
        ensures
            r == (TileType { dtype, ..self }),
    {
        TileType { dtype, ..self }
    }

    /// Where the elements lie.
    pub fn layout(&self) -> (r: TensorLayout)
        ensures
            r == self.layout,
    {
        self.layout
    }
}

/// An operation.
#[derive(Clone, Copy, Debug, PartialEq, Eq, Structural)]
#[allow(inconsistent_fields)]
pub enum TileOp {
    /// An argument.
    Arg { result: Value, kind: ScalarDType, index: usize },
    /// The number of the workgroup along an axis.
    ProgramId { result: Value, axis: u8 },
    /// `start`, `start + 1`, … : one per thread.
    Arange { result: Value, start: u32, end: u32 },
    /// The number of the thread along x.
    ThreadIdX2D { result: Value, block_x: u32 },
    /// The number of the thread along y.
    ThreadIdY2D { result: Value, block_x: u32 },
    ConstU32 { result: Value, value: u32 },
    /// A float, by its bits.
    ConstF32 { result: Value, bits: u32 },
    /// A tile of one float, by its bits.
    Splat { result: Value, bits: u32 },
    Binary { result: Value, kind: BinOpKind, lhs: Value, rhs: Value },
    Unary { result: Value, kind: UnaryOpKind, src: Value },
    Compare { result: Value, kind: CmpOpKind, lhs: Value, rhs: Value },
    Fma { result: Value, a: Value, b: Value, c: Value },
    Select { result: Value, mask: Value, on_true: Value, on_false: Value },
    /// Loads where the mask is set; the other lanes get `other`.
    Load { result: Value, ptr: Value, index: Value, mask: Value, other: Value },
    Store { ptr: Value, index: Value, value: Value, mask: Value },
    AtomicAddF32 { ptr: Value, index: Value, value: Value, mask: Value },
    Cast { result: Value, src: Value },
    Reduce { result: Value, kind: ReduceKind, src: Value },
    WgReduce { result: Value, kind: ReduceKind, src: Value, block_size: u32 },
    LdsAlloc { result: Value, size: u32 },
    LdsLoad { result: Value, base: Value, offset: Value },
    LdsStore { base: Value, offset: Value, value: Value },
    Barrier,
    ZeroAcc { result: Value },
    CvtPkBf16F32 { result: Value, lo: Value, hi: Value },
    Wmma { result: Value, a: Value, b: Value, c: Value },
    ExtractF32 { result: Value, src: Value, idx: u32 },
    SplatFragment { result: Value, src: Value },
    TileLoad2D { result: Value, ptr: Value, row: Value, col: Value, stride: Value },
    TileDot { result: Value, a: Value, b: Value, acc: Value },
    TileStore2D { ptr: Value, row: Value, col: Value, stride: Value, value: Value },
    ExecMaskPush { mask: Value },
    ExecMaskFlip,
    ExecMaskPop,
    /// Goes to the head of a loop with a new counter.
    Jump { target: usize, iv: Value },
    /// Goes to the head of a loop with a new counter and a new carried value.
    JumpAcc { target: usize, iv: Value, acc: Value },
    /// Goes to one of two blocks.
    Branch { cond: Value, on_true: usize, on_false: usize },
    Return,
}

impl TileOp {
    /// The value that an operation defines.
    pub open spec fn defines(self) -> Option<Value> {
        match self {
            TileOp::Arg { result, .. }
            | TileOp::ProgramId { result, .. }
            | TileOp::Arange { result, .. }
            | TileOp::ThreadIdX2D { result, .. }
            | TileOp::ThreadIdY2D { result, .. }
            | TileOp::ConstU32 { result, .. }
            | TileOp::ConstF32 { result, .. }
            | TileOp::Splat { result, .. }
            | TileOp::Binary { result, .. }
            | TileOp::Unary { result, .. }
            | TileOp::Compare { result, .. }
            | TileOp::Fma { result, .. }
            | TileOp::Select { result, .. }
            | TileOp::Load { result, .. }
            | TileOp::Cast { result, .. }
            | TileOp::Reduce { result, .. }
            | TileOp::WgReduce { result, .. }
            | TileOp::LdsAlloc { result, .. }
            | TileOp::LdsLoad { result, .. }
            | TileOp::ZeroAcc { result }
            | TileOp::CvtPkBf16F32 { result, .. }
            | TileOp::Wmma { result, .. }
            | TileOp::ExtractF32 { result, .. }
            | TileOp::SplatFragment { result, .. }
            | TileOp::TileLoad2D { result, .. }
            | TileOp::TileDot { result, .. } => Some(result),
            TileOp::Store { .. }
            | TileOp::AtomicAddF32 { .. }
            | TileOp::LdsStore { .. }
            | TileOp::Barrier
            | TileOp::TileStore2D { .. }
            | TileOp::ExecMaskPush { .. }
            | TileOp::ExecMaskFlip
            | TileOp::ExecMaskPop
            | TileOp::Jump { .. }
            | TileOp::JumpAcc { .. }
            | TileOp::Branch { .. }
            | TileOp::Return => None,
        }
    }

    /// The values that an operation uses, in order.
    pub open spec fn used(self) -> Seq<Value> {
        match self {
            TileOp::Arg { .. } => Seq::empty(),
            TileOp::ProgramId { .. } => Seq::empty(),
            TileOp::Arange { .. } => Seq::empty(),
            TileOp::ThreadIdX2D { .. } => Seq::empty(),
            TileOp::ThreadIdY2D { .. } => Seq::empty(),
            TileOp::ConstU32 { .. } => Seq::empty(),
            TileOp::ConstF32 { .. } => Seq::empty(),
            TileOp::Splat { .. } => Seq::empty(),
            TileOp::Binary { lhs, rhs, .. } => seq![lhs, rhs],
            TileOp::Unary { src, .. } => seq![src],
            TileOp::Compare { lhs, rhs, .. } => seq![lhs, rhs],
            TileOp::Fma { a, b, c, .. } => seq![a, b, c],
            TileOp::Select { mask, on_true, on_false, .. } => seq![mask, on_true, on_false],
            TileOp::Load { ptr, index, mask, other, .. } => seq![ptr, index, mask, other],
            TileOp::Store { ptr, index, value, mask } => seq![ptr, index, value, mask],
            TileOp::AtomicAddF32 { ptr, index, value, mask } => seq![ptr, index, value, mask],
            TileOp::Cast { src, .. } => seq![src],
            TileOp::Reduce { src, .. } => seq![src],
            TileOp::WgReduce { src, .. } => seq![src],
            TileOp::LdsAlloc { .. } => Seq::empty(),
            TileOp::LdsLoad { base, offset, .. } => seq![base, offset],
            TileOp::LdsStore { base, offset, value } => seq![base, offset, value],
            TileOp::Barrier => Seq::empty(),
            TileOp::ZeroAcc { .. } => Seq::empty(),
            TileOp::CvtPkBf16F32 { lo, hi, .. } => seq![lo, hi],
            TileOp::Wmma { a, b, c, .. } => seq![a, b, c],
            TileOp::ExtractF32 { src, .. } => seq![src],
            TileOp::SplatFragment { src, .. } => seq![src],
            TileOp::TileLoad2D { ptr, row, col, stride, .. } => seq![ptr, row, col, stride],
            TileOp::TileDot { a, b, acc, .. } => seq![a, b, acc],
            TileOp::TileStore2D {
                ptr,
                row,
                col,
                stride,
                value,
            } => seq![ptr, row, col, stride, value],
            TileOp::ExecMaskPush { mask } => seq![mask],
            TileOp::ExecMaskFlip => Seq::empty(),
            TileOp::ExecMaskPop => Seq::empty(),
            TileOp::Jump { iv, .. } => seq![iv],
            TileOp::JumpAcc { iv, acc, .. } => seq![iv, acc],
            TileOp::Branch { cond, .. } => seq![cond],
            TileOp::Return => Seq::empty(),
        }
    }

    /// How an operation is called.
    pub open spec fn called(self) -> Seq<char> {
        match self {
            TileOp::Arg { kind, .. } => dtype_text(kind),
            TileOp::ProgramId { .. } => "program_id"@,
            TileOp::Arange { .. } => "arange"@,
            TileOp::ThreadIdX2D { .. } => "thread_id_x"@,
            TileOp::ThreadIdY2D { .. } => "thread_id_y"@,
            TileOp::ConstU32 { .. } => "const"@,
            TileOp::ConstF32 { .. } => "const"@,
            TileOp::Splat { .. } => "splat"@,
            TileOp::Binary { kind, .. } => binary_text(kind),
            TileOp::Unary { kind, .. } => unary_text(kind),
            TileOp::Compare { kind, .. } => compare_text(kind),
            TileOp::Fma { .. } => "fma"@,
            TileOp::Select { .. } => "select"@,
            TileOp::Load { .. } => "load"@,
            TileOp::Store { .. } => "store"@,
            TileOp::AtomicAddF32 { .. } => "atomic_add_f32"@,
            TileOp::Cast { .. } => "cast"@,
            TileOp::Reduce { kind, .. } => wave_text(kind),
            TileOp::WgReduce { kind, .. } => wg_text(kind),
            TileOp::LdsAlloc { .. } => "lds_alloc"@,
            TileOp::LdsLoad { .. } => "lds_load"@,
            TileOp::LdsStore { .. } => "lds_store"@,
            TileOp::Barrier => "barrier"@,
            TileOp::ZeroAcc { .. } => "zero_acc"@,
            TileOp::CvtPkBf16F32 { .. } => "cvt_pk_bf16_f32"@,
            TileOp::Wmma { .. } => "wmma"@,
            TileOp::ExtractF32 { .. } => "extract"@,
            TileOp::SplatFragment { .. } => "splat_fragment"@,
            TileOp::TileLoad2D { .. } => "tile_load_2d"@,
            TileOp::TileDot { .. } => "tile_dot"@,
            TileOp::TileStore2D { .. } => "tile_store_2d"@,
            TileOp::ExecMaskPush { .. } => "exec_mask_push"@,
            TileOp::ExecMaskFlip => "exec_mask_flip"@,
            TileOp::ExecMaskPop => "exec_mask_pop"@,
            TileOp::Jump { .. } => "br"@,
            TileOp::JumpAcc { .. } => "br"@,
            TileOp::Branch { .. } => "cond_br"@,
            TileOp::Return => "return"@,
        }
    }

    /// The value that an operation defines.
    pub fn result(self) -> (r: Option<Value>)
        ensures
            r == self.defines(),
    {
        match self {
            TileOp::Arg { result, .. }
            | TileOp::ProgramId { result, .. }
            | TileOp::Arange { result, .. }
            | TileOp::ThreadIdX2D { result, .. }
            | TileOp::ThreadIdY2D { result, .. }
            | TileOp::ConstU32 { result, .. }
            | TileOp::ConstF32 { result, .. }
            | TileOp::Splat { result, .. }
            | TileOp::Binary { result, .. }
            | TileOp::Unary { result, .. }
            | TileOp::Compare { result, .. }
            | TileOp::Fma { result, .. }
            | TileOp::Select { result, .. }
            | TileOp::Load { result, .. }
            | TileOp::Cast { result, .. }
            | TileOp::Reduce { result, .. }
            | TileOp::WgReduce { result, .. }
            | TileOp::LdsAlloc { result, .. }
            | TileOp::LdsLoad { result, .. }
            | TileOp::ZeroAcc { result }
            | TileOp::CvtPkBf16F32 { result, .. }
            | TileOp::Wmma { result, .. }
            | TileOp::ExtractF32 { result, .. }
            | TileOp::SplatFragment { result, .. }
            | TileOp::TileLoad2D { result, .. }
            | TileOp::TileDot { result, .. } => Some(result),
            TileOp::Store { .. }
            | TileOp::AtomicAddF32 { .. }
            | TileOp::LdsStore { .. }
            | TileOp::Barrier
            | TileOp::TileStore2D { .. }
            | TileOp::ExecMaskPush { .. }
            | TileOp::ExecMaskFlip
            | TileOp::ExecMaskPop
            | TileOp::Jump { .. }
            | TileOp::JumpAcc { .. }
            | TileOp::Branch { .. }
            | TileOp::Return => None,
        }
    }

    /// The values that an operation uses, in order.
    pub fn uses(self) -> (r: Vec<Value>)
        ensures
            r@ == self.used(),
    {
        let r: Vec<Value> = match self {
            TileOp::Arg { .. } => Vec::new(),
            TileOp::ProgramId { .. } => Vec::new(),
            TileOp::Arange { .. } => Vec::new(),
            TileOp::ThreadIdX2D { .. } => Vec::new(),
            TileOp::ThreadIdY2D { .. } => Vec::new(),
            TileOp::ConstU32 { .. } => Vec::new(),
            TileOp::ConstF32 { .. } => Vec::new(),
            TileOp::Splat { .. } => Vec::new(),
            TileOp::Binary { lhs, rhs, .. } => vec![lhs, rhs],
            TileOp::Unary { src, .. } => vec![src],
            TileOp::Compare { lhs, rhs, .. } => vec![lhs, rhs],
            TileOp::Fma { a, b, c, .. } => vec![a, b, c],
            TileOp::Select { mask, on_true, on_false, .. } => vec![mask, on_true, on_false],
            TileOp::Load { ptr, index, mask, other, .. } => vec![ptr, index, mask, other],
            TileOp::Store { ptr, index, value, mask } => vec![ptr, index, value, mask],
            TileOp::AtomicAddF32 { ptr, index, value, mask } => vec![ptr, index, value, mask],
            TileOp::Cast { src, .. } => vec![src],
            TileOp::Reduce { src, .. } => vec![src],
            TileOp::WgReduce { src, .. } => vec![src],
            TileOp::LdsAlloc { .. } => Vec::new(),
            TileOp::LdsLoad { base, offset, .. } => vec![base, offset],
            TileOp::LdsStore { base, offset, value } => vec![base, offset, value],
            TileOp::Barrier => Vec::new(),
            TileOp::ZeroAcc { .. } => Vec::new(),
            TileOp::CvtPkBf16F32 { lo, hi, .. } => vec![lo, hi],
            TileOp::Wmma { a, b, c, .. } => vec![a, b, c],
            TileOp::ExtractF32 { src, .. } => vec![src],
            TileOp::SplatFragment { src, .. } => vec![src],
            TileOp::TileLoad2D { ptr, row, col, stride, .. } => vec![ptr, row, col, stride],
            TileOp::TileDot { a, b, acc, .. } => vec![a, b, acc],
            TileOp::TileStore2D {
                ptr,
                row,
                col,
                stride,
                value,
            } => vec![ptr, row, col, stride, value],
            TileOp::ExecMaskPush { mask } => vec![mask],
            TileOp::ExecMaskFlip => Vec::new(),
            TileOp::ExecMaskPop => Vec::new(),
            TileOp::Jump { iv, .. } => vec![iv],
            TileOp::JumpAcc { iv, acc, .. } => vec![iv, acc],
            TileOp::Branch { cond, .. } => vec![cond],
            TileOp::Return => Vec::new(),
        };
        assert(r@ =~= self.used());
        r
    }

    /// How an operation is called.
    pub fn name(self) -> (r: &'static str)
        ensures
            r@ == self.called(),
    {
        match self {
            TileOp::Arg { kind, .. } => kind.name(),
            TileOp::ProgramId { .. } => "program_id",
            TileOp::Arange { .. } => "arange",
            TileOp::ThreadIdX2D { .. } => "thread_id_x",
            TileOp::ThreadIdY2D { .. } => "thread_id_y",
            TileOp::ConstU32 { .. } => "const",
            TileOp::ConstF32 { .. } => "const",
            TileOp::Splat { .. } => "splat",
            TileOp::Binary { kind, .. } => kind.name(),
            TileOp::Unary { kind, .. } => kind.name(),
            TileOp::Compare { kind, .. } => kind.name(),
            TileOp::Fma { .. } => "fma",
            TileOp::Select { .. } => "select",
            TileOp::Load { .. } => "load",
            TileOp::Store { .. } => "store",
            TileOp::AtomicAddF32 { .. } => "atomic_add_f32",
            TileOp::Cast { .. } => "cast",
            TileOp::Reduce { kind, .. } => kind.wave_name(),
            TileOp::WgReduce { kind, .. } => kind.wg_name(),
            TileOp::LdsAlloc { .. } => "lds_alloc",
            TileOp::LdsLoad { .. } => "lds_load",
            TileOp::LdsStore { .. } => "lds_store",
            TileOp::Barrier => "barrier",
            TileOp::ZeroAcc { .. } => "zero_acc",
            TileOp::CvtPkBf16F32 { .. } => "cvt_pk_bf16_f32",
            TileOp::Wmma { .. } => "wmma",
            TileOp::ExtractF32 { .. } => "extract",
            TileOp::SplatFragment { .. } => "splat_fragment",
            TileOp::TileLoad2D { .. } => "tile_load_2d",
            TileOp::TileDot { .. } => "tile_dot",
            TileOp::TileStore2D { .. } => "tile_store_2d",
            TileOp::ExecMaskPush { .. } => "exec_mask_push",
            TileOp::ExecMaskFlip => "exec_mask_flip",
            TileOp::ExecMaskPop => "exec_mask_pop",
            TileOp::Jump { .. } => "br",
            TileOp::JumpAcc { .. } => "br",
            TileOp::Branch { .. } => "cond_br",
            TileOp::Return => "return",
        }
    }
}

/// What an operation says besides its values: numbers, targets, names.
pub open spec fn detail_text(op: TileOp, args: Seq<Seq<char>>) -> Seq<char> {
    match op {
        TileOp::Arg { index, .. } => " /*"@ + args[index as int] + "*/"@,
        TileOp::ProgramId { axis, .. } => " "@ + dec(axis as nat),
        TileOp::Arange { start, end, .. } => " "@ + dec(start as nat) + ".."@ + dec(end as nat),
        TileOp::ThreadIdX2D { block_x, .. } => " "@ + dec(block_x as nat),
        TileOp::ThreadIdY2D { block_x, .. } => " "@ + dec(block_x as nat),
        TileOp::ConstU32 { value, .. } => " "@ + dec(value as nat),
        TileOp::ConstF32 { bits, .. } => " "@ + hex_padded(bits as nat, 8),
        TileOp::Splat { bits, .. } => " "@ + hex_padded(bits as nat, 8),
        TileOp::WgReduce { block_size, .. } => " "@ + dec(block_size as nat),
        TileOp::LdsAlloc { size, .. } => " "@ + dec(size as nat),
        TileOp::ExtractF32 { idx, .. } => " "@ + dec(idx as nat),
        TileOp::Jump { target, .. } => " bb"@ + dec(target as nat),
        TileOp::JumpAcc { target, .. } => " bb"@ + dec(target as nat),
        TileOp::Branch {
            on_true,
            on_false,
            ..
        } => " bb"@ + dec(on_true as nat) + " bb"@ + dec(on_false as nat),
        _ => ""@,
    }
}

/// A block of operations. Its parameters are values that jumps to it give.
#[derive(Debug)]
pub struct TileBlock {
    pub params: Vec<Value>,
    pub ops: Vec<TileOp>,
}

/// What a block consists of.
#[verifier::ext_equal]
pub struct BlockText {
    pub params: Seq<Value>,
    pub ops: Seq<TileOp>,
}

impl View for TileBlock {
    type V = BlockText;

    open spec fn view(&self) -> BlockText {
        BlockText { params: self.params@, ops: self.ops@ }
    }
}

/// A loop under construction.
#[derive(Clone, Copy, Debug, PartialEq, Eq, Structural)]
pub struct ForLoop {
    pub header: usize,
    pub exit: usize,
    /// The counter.
    pub iv: Value,
    pub step: u32,
}

/// A loop that carries a value, under construction.
#[derive(Clone, Copy, Debug, PartialEq, Eq, Structural)]
pub struct ForLoopAcc {
    pub header: usize,
    pub exit: usize,
    /// The counter.
    pub iv: Value,
    /// The carried value inside the loop.
    pub acc: Value,
    /// The carried value behind the loop.
    pub result: Value,
    pub step: u32,
}

/// A function on tiles.
pub struct TileFunc {
    pub name: String,
    args: Vec<String>,
    types: Vec<TileType>,
    blocks: Vec<TileBlock>,
    current: usize,
}

/// What a function consists of.
#[verifier::ext_equal]
pub struct FuncState {
    pub name: Seq<char>,
    /// The names of the arguments.
    pub args: Seq<Seq<char>>,
    /// The types of the values.
    pub types: Seq<TileType>,
    pub blocks: Seq<BlockText>,
    /// The block that operations are appended to.
    pub current: int,
}

/// What blocks are.
pub open spec fn block_texts(blocks: Seq<TileBlock>) -> Seq<BlockText> {
    blocks.map_values(|b: TileBlock| b@)
}

/// What names are.
pub open spec fn name_texts(names: Seq<String>) -> Seq<Seq<char>> {
    names.map_values(|s: String| s@)
}

impl View for TileFunc {
    type V = FuncState;

    closed spec fn view(&self) -> FuncState {
        FuncState {
            name: self.name@,
            args: name_texts(self.args@),
            types: self.types@,
            blocks: block_texts(self.blocks@),
            current: self.current as int,
        }
    }
}

/// A block without parameters or operations.
pub open spec fn empty_block() -> BlockText {
    BlockText { params: Seq::empty(), ops: Seq::empty() }
}

impl FuncState {
    /// Whether an operation uses and defines only values that there are.
    pub open spec fn knows(self, op: TileOp) -> bool {
        &&& forall|i: int|
            0 <= i < op.used().len() ==> (#[trigger] op.used()[i]).0 < self.types.len()
        &&& op.defines() matches Some(v) ==> v.0 < self.types.len()
        &&& op matches TileOp::Arg { index, .. } ==> index < self.args.len()
    }

    /// Whether a block uses and defines only values that there are.
    pub open spec fn knows_block(self, b: BlockText) -> bool {
        &&& forall|i: int| 0 <= i < b.ops.len() ==> self.knows(#[trigger] b.ops[i])
        &&& forall|i: int| 0 <= i < b.params.len() ==> (#[trigger] b.params[i]).0 < self.types.len()
    }

    /// Whether every value is defined exactly once, and nothing else is.
    #[verifier::opaque]
    pub open spec fn defined_once(self) -> bool {
        forall|v: int|
            #[trigger] def_count(self.blocks, v) == if 0 <= v < self.types.len() {
                1nat
            } else {
                0
            }
    }

    /// Whether there is a current block, every value is defined once, and all blocks use and
    /// define only values that there are.
    pub open spec fn wf(self) -> bool {
        &&& 0 <= self.current < self.blocks.len()
        &&& self.defined_once()
        &&& forall|i: int|
            0 <= i < self.blocks.len() ==> self.knows_block(#[trigger] self.blocks[i])
    }

    /// A function without operations.
    pub open spec fn empty(name: Seq<char>) -> FuncState {
        FuncState {
            name,
            args: Seq::empty(),
            types: Seq::empty(),
            blocks: seq![empty_block()],
            current: 0,
        }
    }

    /// The next value.
    pub open spec fn next(self) -> Value {
        Value(self.types.len() as usize)
    }

    /// The type of a value.
    pub open spec fn ty(self, v: Value) -> TileType {
        self.types[v.0 as int]
    }

    /// With one more value.
    pub open spec fn with_value(self, ty: TileType) -> FuncState {
        FuncState { types: self.types.push(ty), ..self }
    }

    /// With one more operation in the current block.
    pub open spec fn with_op(self, op: TileOp) -> FuncState {
        let b = self.blocks[self.current];
        FuncState {
            blocks: self.blocks.update(
                self.current,
                BlockText { ops: b.ops.push(op), ..b },
            ),
            ..self
        }
    }

    /// With an operation that defines a value.
    pub open spec fn define(self, ty: TileType, op: TileOp) -> FuncState {
        self.with_value(ty).with_op(op)
    }

    /// With an argument.
    pub open spec fn arg(self, name: Seq<char>, kind: ScalarDType) -> FuncState {
        let s = self.with_value(scalar_type(kind)).with_op(
            TileOp::Arg { result: self.next(), kind, index: self.args.len() as usize },
        );
        FuncState { args: self.args.push(name), ..s }
    }

    /// With an operation on two values.
    pub open spec fn binary(self, kind: BinOpKind, lhs: Value, rhs: Value) -> FuncState {
        self.with_value(joined_type(self.ty(lhs), self.ty(rhs))).with_op(
            TileOp::Binary { result: self.next(), kind, lhs, rhs },
        )
    }

    /// With the bits of a value moved up by another one, as floats.
    pub open spec fn widen(self, src: Value, by: Value) -> FuncState {
        let ty = TileType { dtype: ScalarDType::F32, ..joined_type(self.ty(src), self.ty(by)) };
        self.with_value(ty).with_op(
            TileOp::Binary { result: self.next(), kind: BinOpKind::Shl, lhs: src, rhs: by },
        )
    }

    /// With an operation on one value.
    pub open spec fn unary(self, kind: UnaryOpKind, src: Value) -> FuncState {
        self.with_value(self.ty(src)).with_op(TileOp::Unary { result: self.next(), kind, src })
    }

    /// With a comparison.
    pub open spec fn compare(self, kind: CmpOpKind, lhs: Value, rhs: Value) -> FuncState {
        let ty = TileType {
            dtype: ScalarDType::Bool,
            ..joined_type(self.ty(lhs), self.ty(rhs))
        };
        self.with_value(ty).with_op(TileOp::Compare { result: self.next(), kind, lhs, rhs })
    }

    /// With an unsigned constant.
    pub open spec fn const_u32(self, value: u32) -> FuncState {
        self.with_value(scalar_type(ScalarDType::U32)).with_op(
            TileOp::ConstU32 { result: self.next(), value },
        )
    }

    /// With a float constant.
    pub open spec fn const_f32(self, bits: u32) -> FuncState {
        self.with_value(scalar_type(ScalarDType::F32)).with_op(
            TileOp::ConstF32 { result: self.next(), bits },
        )
    }

    /// With the numbers of threads.
    pub open spec fn arange(self, start: u32, end: u32) -> FuncState {
        self.with_value(vector_type((end - start) as u32, ScalarDType::U32)).with_op(
            TileOp::Arange { result: self.next(), start, end },
        )
    }

    /// With the number of a workgroup.
    pub open spec fn program_id(self, axis: u8) -> FuncState {
        self.with_value(scalar_type(ScalarDType::U32)).with_op(
            TileOp::ProgramId { result: self.next(), axis },
        )
    }

    /// With a load of elements, as many as there are places.
    pub open spec fn load_masked(
        self,
        ptr: Value,
        index: Value,
        mask: Value,
        other: Value,
        dtype: ScalarDType,
    ) -> FuncState {
        self.with_value(TileType { dtype, ..self.ty(index) }).with_op(
            TileOp::Load { result: self.next(), ptr, index, mask, other },
        )
    }

    /// With a conversion of elements.
    pub open spec fn cast(self, src: Value, dtype: ScalarDType) -> FuncState {
        self.with_value(TileType { dtype, ..self.ty(src) }).with_op(
            TileOp::Cast { result: self.next(), src },
        )
    }

    /// With a loop: a jump to its head, which tests the counter. Operations go to its body.
    pub open spec fn for_range(self, start: Value, end: Value) -> FuncState {
        let n = self.blocks.len();
        let iv = self.next();
        let cond = Value((self.types.len() + 1) as usize);
        let s = self.with_op(TileOp::Jump { target: n as usize, iv: start });
        FuncState {
            types: self.types.push(scalar_type(ScalarDType::U32)).push(
                scalar_type(ScalarDType::Bool),
            ),
            blocks: s.blocks.push(
                BlockText {
                    params: seq![iv],
                    ops: seq![
                        TileOp::Compare { result: cond, kind: CmpOpKind::Lt, lhs: iv, rhs: end },
                        TileOp::Branch {
                            cond,
                            on_true: (n + 1) as usize,
                            on_false: (n + 2) as usize,
                        },
                    ],
                },
            ).push(empty_block()).push(empty_block()),
            current: (n + 1) as int,
            ..self
        }
    }

    /// The loop that is begun next.
    pub open spec fn next_loop(self, step: u32) -> ForLoop {
        ForLoop {
            header: self.blocks.len() as usize,
            exit: (self.blocks.len() + 2) as usize,
            iv: self.next(),
            step,
        }
    }

    /// With the end of a loop: count, and jump to the head. Operations go behind the loop.
    pub open spec fn end_for(self, lp: ForLoop) -> FuncState {
        let next = Value((self.types.len() + 1) as usize);
        let s = self.const_u32(lp.step).binary(BinOpKind::Add, lp.iv, self.next());
        let s = s.with_op(TileOp::Jump { target: lp.header, iv: next });
        FuncState { current: lp.exit as int, ..s }
    }

    /// With a loop that carries a value.
    pub open spec fn for_range_acc(self, start: Value, end: Value, init: Value) -> FuncState {
        let n = self.blocks.len();
        let iv = self.next();
        let acc = Value((self.types.len() + 1) as usize);
        let cond = Value((self.types.len() + 2) as usize);
        let s = self.with_op(TileOp::JumpAcc { target: n as usize, iv: start, acc: init });
        FuncState {
            types: self.types.push(scalar_type(ScalarDType::U32)).push(self.ty(init)).push(
                scalar_type(ScalarDType::Bool),
            ),
            blocks: s.blocks.push(
                BlockText {
                    params: seq![iv, acc],
                    ops: seq![
                        TileOp::Compare { result: cond, kind: CmpOpKind::Lt, lhs: iv, rhs: end },
                        TileOp::Branch {
                            cond,
                            on_true: (n + 1) as usize,
                            on_false: (n + 2) as usize,
                        },
                    ],
                },
            ).push(empty_block()).push(empty_block()),
            current: (n + 1) as int,
            ..self
        }
    }

    /// The loop that is begun next.
    pub open spec fn next_loop_acc(self, step: u32) -> ForLoopAcc {
        ForLoopAcc {
            header: self.blocks.len() as usize,
            exit: (self.blocks.len() + 2) as usize,
            iv: self.next(),
            acc: Value((self.types.len() + 1) as usize),
            result: Value((self.types.len() + 1) as usize),
            step,
        }
    }

    /// With the end of a loop that carries a value.
    pub open spec fn end_for_acc(self, lp: ForLoopAcc, new_acc: Value) -> FuncState {
        let next = Value((self.types.len() + 1) as usize);
        let s = self.const_u32(lp.step).binary(BinOpKind::Add, lp.iv, self.next());
        let s = s.with_op(TileOp::JumpAcc { target: lp.header, iv: next, acc: new_acc });
        FuncState { current: lp.exit as int, ..s }
    }
}

impl TileFunc {
    /// A function without operations.
    pub fn new(name: &str) -> (r: Self)
        ensures
            r@ == FuncState::empty(name@),
            r@.wf(),
    {
        let mut blocks: Vec<TileBlock> = Vec::new();
        blocks.push(TileBlock { params: Vec::new(), ops: Vec::new() });
        let r = TileFunc {
            name: name.to_string(),
            args: Vec::new(),
            types: Vec::new(),
            blocks,
            current: 0,
        };
        proof {
            let s = FuncState::empty(name@);
            assert(r@ =~= s);
            reveal(FuncState::defined_once);
            assert(s.blocks.drop_last() =~= Seq::empty());
            assert forall|v: int| #[trigger] def_count(s.blocks, v) == 0 by {
                reveal_with_fuel(def_count, 2);
            }
        }
        r
    }

    /// The type of a value.
    pub fn value_type(&self, v: Value) -> (r: &TileType)
        requires
            v.0 < self@.types.len(),
        ensures
            *r == self@.ty(v),
    {
        &self.types[v.0]
    }

    /// The blocks.
    pub fn all_blocks(&self) -> (r: &[TileBlock])
        ensures
            block_texts(r@) == self@.blocks,
    {
        self.blocks.as_slice()
    }

    /// All operations, block by block.
    pub fn all_ops(&self) -> (r: Vec<TileOp>)
        ensures
            r@ == ops_of(self@.blocks),
    {
        let mut r: Vec<TileOp> = Vec::new();
        let ghost blocks = self@.blocks;
        let mut i: usize = 0;
        assert(blocks.take(0) =~= Seq::empty());
        while i < self.blocks.len()
            invariant
                i <= self.blocks.len(),
                blocks == block_texts(self.blocks@),
                r@ == ops_of(blocks.take(i as int)),
            decreases self.blocks.len() - i,
        {
            let ghost before = r@;
            let ghost b = self.blocks@[i as int];
            let mut j: usize = 0;
            assert(b.ops@.take(0) =~= Seq::empty());
            while j < self.blocks[i].ops.len()
                invariant
                    i < self.blocks.len(),
                    b == self.blocks@[i as int],
                    j <= b.ops.len(),
                    r@ =~= before + b.ops@.take(j as int),
                decreases b.ops.len() - j,
            {
                r.push(self.blocks[i].ops[j]);
                j = j + 1;
            }
            proof {
                assert(b.ops@.take(j as int) =~= b.ops@);
                let more = blocks.take(i + 1);
                assert(more.drop_last() =~= blocks.take(i as int));
                assert(more.last() == b@);
            }
            i = i + 1;
        }
        assert(blocks.take(i as int) =~= blocks);
        r
    }

    /// The next value.
    pub fn next_value(&self) -> (r: Value)
        ensures
            r == self@.next(),
            r.0 == self@.types.len(),
    {
        Value(self.types.len())
    }

    /// Appends an operation that defines the next value.
    pub fn define(&mut self, ty: TileType, op: TileOp) -> (r: Value)
        requires
            old(self)@.wf(),
            old(self)@.with_value(ty).knows(op),
            op.defines() == Some(old(self)@.next()),
        ensures
            r == old(self)@.next(),
            r.0 == old(self)@.types.len(),
            final(self)@ == old(self)@.define(ty, op),
            final(self)@.wf(),
    {
        let v = Value(self.types.len());
        self.types.push(ty);
        let at: usize = self.current;
        self.blocks[at].ops.push(op);
        proof {
            let b = old(self)@.blocks[at as int];
            let more = BlockText { ops: b.ops.push(op), ..b };
            assert(self@.blocks =~= old(self)@.blocks.update(at as int, more));
            assert(self@ =~= old(self)@.define(ty, op));
            lemma_define(old(self)@, ty, op);
        }
        v
    }

    /// Appends an operation that defines no value.
    pub fn push_op(&mut self, op: TileOp)
        requires
            old(self)@.wf(),
            old(self)@.knows(op),
            op.defines() is None,
        ensures
            final(self)@ == old(self)@.with_op(op),
            final(self)@.wf(),
    {
        let at: usize = self.current;
        self.blocks[at].ops.push(op);
        proof {
            let b = old(self)@.blocks[at as int];
            let more = BlockText { ops: b.ops.push(op), ..b };
            assert(self@.blocks =~= old(self)@.blocks.update(at as int, more));
            assert(self@ =~= old(self)@.with_op(op));
            lemma_plain(old(self)@, op);
        }
    }

    /// Declares an argument.
    pub fn arg(&mut self, name: &str, kind: ScalarDType) -> (r: Value)
        requires
            old(self)@.wf(),
        ensures
            r.0 == old(self)@.types.len(),
            final(self)@ == old(self)@.arg(name@, kind),
            final(self)@.wf(),
    {
        let index: usize = self.args.len();
        let v = self.next_value();
        self.args.push(name.to_string());
        proof {
            let s = FuncState { args: old(self)@.args.push(name@), ..old(self)@ };
            assert(self@ =~= s);
            lemma_more_args(old(self)@, s);
        }
        let _ = self.define(TileType::scalar(kind), TileOp::Arg { result: v, kind, index });
        assert(self@ =~= old(self)@.arg(name@, kind));
        v
    }

    /// An operation on two values.
    pub fn binop_raw(&mut self, kind: BinOpKind, lhs: Value, rhs: Value) -> (r: Value)
        requires
            old(self)@.wf(),
            lhs.0 < old(self)@.types.len(),
            rhs.0 < old(self)@.types.len(),
        ensures
            r.0 == old(self)@.types.len(),
            final(self)@ == old(self)@.binary(kind, lhs, rhs),
            final(self)@.wf(),
    {
        let ty = self.types[lhs.0].join(self.types[rhs.0]);
        let v = self.next_value();
        self.define(ty, TileOp::Binary { result: v, kind, lhs, rhs })
    }

    /// The bits of a value moved up by another one, as floats.
    pub fn widen(&mut self, src: Value, by: Value) -> (r: Value)
        requires
            old(self)@.wf(),
            src.0 < old(self)@.types.len(),
            by.0 < old(self)@.types.len(),
        ensures
            r.0 == old(self)@.types.len(),
            final(self)@ == old(self)@.widen(src, by),
            final(self)@.wf(),
    {
        let ty = self.types[src.0].join(self.types[by.0]).with_dtype(ScalarDType::F32);
        let v = self.next_value();
        self.define(ty, TileOp::Binary { result: v, kind: BinOpKind::Shl, lhs: src, rhs: by })
    }

    /// An operation on one value.
    pub fn unary(&mut self, kind: UnaryOpKind, src: Value) -> (r: Value)
        requires
            old(self)@.wf(),
            src.0 < old(self)@.types.len(),
        ensures
            r.0 == old(self)@.types.len(),
            final(self)@ == old(self)@.unary(kind, src),
            final(self)@.wf(),
    {
        let ty = self.types[src.0];
        let v = self.next_value();
        self.define(ty, TileOp::Unary { result: v, kind, src })
    }

    /// A comparison.
    pub fn compare(&mut self, kind: CmpOpKind, lhs: Value, rhs: Value) -> (r: Value)
        requires
            old(self)@.wf(),
            lhs.0 < old(self)@.types.len(),
            rhs.0 < old(self)@.types.len(),
        ensures
            r.0 == old(self)@.types.len(),
            final(self)@ == old(self)@.compare(kind, lhs, rhs),
            final(self)@.wf(),
    {
        let ty = self.types[lhs.0].join(self.types[rhs.0]).with_dtype(ScalarDType::Bool);
        let v = self.next_value();
        self.define(ty, TileOp::Compare { result: v, kind, lhs, rhs })
    }

    /// An unsigned constant.
    pub fn const_u32(&mut self, value: u32) -> (r: Value)
        requires
            old(self)@.wf(),
        ensures
            r.0 == old(self)@.types.len(),
            final(self)@ == old(self)@.const_u32(value),
            final(self)@.wf(),
    {
        let v = self.next_value();
        self.define(TileType::scalar(ScalarDType::U32), TileOp::ConstU32 { result: v, value })
    }

    /// A float constant, by its bits.
    pub fn const_f32(&mut self, bits: u32) -> (r: Value)
        requires
            old(self)@.wf(),
        ensures
            r.0 == old(self)@.types.len(),
            final(self)@ == old(self)@.const_f32(bits),
            final(self)@.wf(),
    {
        let v = self.next_value();
        self.define(TileType::scalar(ScalarDType::F32), TileOp::ConstF32 { result: v, bits })
    }

    /// The numbers from `start` to `end`, one per thread.
    pub fn arange(&mut self, start: u32, end: u32) -> (r: Value)
        requires
            old(self)@.wf(),
            start <= end,
        ensures
            r.0 == old(self)@.types.len(),
            final(self)@ == old(self)@.arange(start, end),
            final(self)@.wf(),
    {
        let v = self.next_value();
        self.define(
            TileType::vector(end - start, ScalarDType::U32),
            TileOp::Arange { result: v, start, end },
        )
    }

    /// The number of the workgroup along an axis.
    pub fn program_id(&mut self, axis: u8) -> (r: Value)
        requires
            old(self)@.wf(),
        ensures
            r.0 == old(self)@.types.len(),
            final(self)@ == old(self)@.program_id(axis),
            final(self)@.wf(),
    {
        let v = self.next_value();
        self.define(TileType::scalar(ScalarDType::U32), TileOp::ProgramId { result: v, axis })
    }

    /// Loads elements where the mask is set.
    pub fn load_masked(
        &mut self,
        ptr: Value,
        index: Value,
        mask: Value,
        other: Value,
        dtype: ScalarDType,
    ) -> (r: Value)
        requires
            old(self)@.wf(),
            ptr.0 < old(self)@.types.len(),
            index.0 < old(self)@.types.len(),
            mask.0 < old(self)@.types.len(),
            other.0 < old(self)@.types.len(),
        ensures
            r.0 == old(self)@.types.len(),
            final(self)@ == old(self)@.load_masked(ptr, index, mask, other, dtype),
            final(self)@.wf(),
    {
        let ty = self.types[index.0].with_dtype(dtype);
        let v = self.next_value();
        self.define(ty, TileOp::Load { result: v, ptr, index, mask, other })
    }

    /// Converts elements.
    pub fn cast(&mut self, src: Value, dtype: ScalarDType) -> (r: Value)
        requires
            old(self)@.wf(),
            src.0 < old(self)@.types.len(),
        ensures
            r.0 == old(self)@.types.len(),
            final(self)@ == old(self)@.cast(src, dtype),
            final(self)@.wf(),
    {
        let ty = self.types[src.0].with_dtype(dtype);
        let v = self.next_value();
        self.define(ty, TileOp::Cast { result: v, src })
    }

    /// Begins a loop.
    pub fn for_range_runtime(&mut self, start: Value, end: Value, step: u32) -> (r: ForLoop)
        requires
            old(self)@.wf(),
            start.0 < old(self)@.types.len(),
            end.0 < old(self)@.types.len(),
        ensures
            final(self)@ == old(self)@.for_range(start, end),
            r == old(self)@.next_loop(step),
            r.iv.0 == old(self)@.types.len(),
            r.header == old(self)@.blocks.len(),
            r.exit == old(self)@.blocks.len() + 2,
            final(self)@.wf(),
    {
        let header: usize = self.blocks.len();
        self.push_op(TileOp::Jump { target: header, iv: start });
        let iv = self.next_value();
        let mut types: Vec<TileType> = Vec::new();
        types.push(TileType::scalar(ScalarDType::U32));
        let (exit, _) = self.add_loop_blocks(types, end);
        proof {
            let mid = old(self)@.with_op(TileOp::Jump { target: header, iv: start });
            assert(loop_params(mid, 1) =~= seq![iv]);
            assert(self@ =~= old(self)@.for_range(start, end));
        }
        ForLoop { header, exit, iv, step }
    }

    /// Adds the head, the body and the exit of a loop; operations go to the body. The head
    /// has parameters of the given types, the first of which is the counter. Gives the exit
    /// and the last parameter.
    fn add_loop_blocks(&mut self, types: Vec<TileType>, end: Value) -> (r: (usize, Value))
        requires
            old(self)@.wf(),
            end.0 < old(self)@.types.len(),
            1 <= types@.len() <= 2,
        ensures
            r.0 == old(self)@.blocks.len() + 2,
            r.1.0 == old(self)@.types.len() + types@.len() - 1,
            final(self)@ == with_loop(
                old(self)@,
                loop_params(old(self)@, types@.len()),
                types@,
                end,
            ),
            final(self)@.wf(),
    {
        let ghost o = self@;
        let iv = self.next_value();
        let mut last = iv;
        let mut params: Vec<Value> = Vec::new();
        let mut i: usize = 0;
        while i < types.len()
            invariant
                i <= types.len(),
                types@.len() <= 2,
                o == old(self)@,
                iv.0 == o.types.len(),
                params@ =~= loop_params(o, i as nat),
                i > 0 ==> last.0 == o.types.len() + i - 1,
                self.types@ =~= o.types + types@.take(i as int),
                self@ == (FuncState { types: self.types@, ..o }),
            decreases types.len() - i,
        {
            last = Value(self.types.len());
            params.push(last);
            self.types.push(types[i]);
            i = i + 1;
        }
        assert(types@.take(i as int) =~= types@);
        let ghost values = params@;
        let cond = Value(self.types.len());
        self.types.push(TileType::scalar(ScalarDType::Bool));
        let header: usize = self.blocks.len();
        self.blocks.push(TileBlock { params, ops: Vec::new() });
        let body: usize = self.blocks.len();
        self.blocks.push(TileBlock { params: Vec::new(), ops: Vec::new() });
        let exit: usize = self.blocks.len();
        self.blocks.push(TileBlock { params: Vec::new(), ops: Vec::new() });
        let test = TileOp::Compare { result: cond, kind: CmpOpKind::Lt, lhs: iv, rhs: end };
        let branch = TileOp::Branch { cond, on_true: body, on_false: exit };
        self.blocks[header].ops.push(test);
        self.blocks[header].ops.push(branch);
        self.current = body;
        proof {
            let s = self@;
            let head = loop_head(o, values, end);
            assert(self.blocks@[header as int]@ =~= head);
            assert(self.blocks@[body as int]@ =~= empty_block());
            assert(self.blocks@[exit as int]@ =~= empty_block());
            assert(s.blocks =~= o.blocks.push(head).push(empty_block()).push(empty_block()));
            assert(s.types =~= (o.types + types@).push(scalar_type(ScalarDType::Bool)));
            assert(s =~= with_loop(o, values, types@, end));
            lemma_loop(o, values, types@, end);
        }
        (exit, last)
    }

    /// Ends a loop: counts, and jumps to its head. Operations go behind it.
    pub fn end_for(&mut self, lp: &ForLoop)
        requires
            old(self)@.wf(),
            lp.iv.0 < old(self)@.types.len(),
            lp.exit < old(self)@.blocks.len(),
        ensures
            final(self)@ == old(self)@.end_for(*lp),
            final(self)@.wf(),
    {
        let step = self.const_u32(lp.step);
        let next = self.binop_raw(BinOpKind::Add, lp.iv, step);
        self.push_op(TileOp::Jump { target: lp.header, iv: next });
        self.leave(lp.exit);
    }

    /// Lets operations go to another block.
    fn leave(&mut self, block: usize)
        requires
            old(self)@.wf(),
            block < old(self)@.blocks.len(),
        ensures
            final(self)@ == (FuncState { current: block as int, ..old(self)@ }),
            final(self)@.wf(),
    {
        self.current = block;
        proof {
            lemma_leave(old(self)@, block as int);
        }
    }

    /// Begins a loop that carries a value.
    pub fn for_range_with_acc_runtime(
        &mut self,
        start: Value,
        end: Value,
        step: u32,
        init: Value,
    ) -> (r: ForLoopAcc)
        requires
            old(self)@.wf(),
            start.0 < old(self)@.types.len(),
            end.0 < old(self)@.types.len(),
            init.0 < old(self)@.types.len(),
        ensures
            final(self)@ == old(self)@.for_range_acc(start, end, init),
            r == old(self)@.next_loop_acc(step),
            r.iv.0 == old(self)@.types.len(),
            r.acc.0 == old(self)@.types.len() + 1,
            r.header == old(self)@.blocks.len(),
            r.exit == old(self)@.blocks.len() + 2,
            final(self)@.wf(),
    {
        let ty = self.types[init.0];
        let header: usize = self.blocks.len();
        self.push_op(TileOp::JumpAcc { target: header, iv: start, acc: init });
        let iv = self.next_value();
        let mut types: Vec<TileType> = Vec::new();
        types.push(TileType::scalar(ScalarDType::U32));
        types.push(ty);
        assert(types@ =~= seq![scalar_type(ScalarDType::U32), ty]);
        let (exit, acc) = self.add_loop_blocks(types, end);
        proof {
            let mid = old(self)@.with_op(
                TileOp::JumpAcc { target: header, iv: start, acc: init },
            );
            assert(loop_params(mid, 2) =~= seq![iv, acc]);
            assert(self@ =~= old(self)@.for_range_acc(start, end, init));
        }
        ForLoopAcc { header, exit, iv, acc, result: acc, step }
    }

    /// Ends a loop that carries a value.
    pub fn end_for_acc(&mut self, lp: &ForLoopAcc, new_acc: Value)
        requires
            old(self)@.wf(),
            lp.iv.0 < old(self)@.types.len(),
            new_acc.0 < old(self)@.types.len(),
            lp.exit < old(self)@.blocks.len(),
        ensures
            final(self)@ == old(self)@.end_for_acc(*lp, new_acc),
            final(self)@.wf(),
    {
        let step = self.const_u32(lp.step);
        let next = self.binop_raw(BinOpKind::Add, lp.iv, step);
        self.push_op(TileOp::JumpAcc { target: lp.header, iv: next, acc: new_acc });
        self.leave(lp.exit);
    }

    /// Ends the function.
    pub fn return_(&mut self)
        requires
            old(self)@.wf(),
        ensures
            final(self)@ == old(self)@.with_op(TileOp::Return),
            final(self)@.wf(),
    {
        self.push_op(TileOp::Return);
    }

    /// Appends values behind a blank, separated by commas.
    fn push_values(out: &mut String, values: &Vec<Value>)
        ensures
            final(out)@ == old(out)@ + values_text(values@),
    {
        let mut i: usize = 0;
        let ghost start = out@;
        assert(values@.take(0) =~= Seq::empty());
        while i < values.len()
            invariant
                i <= values.len(),
                out@ =~= start + values_text(values@.take(i as int)),
            decreases values.len() - i,
        {
            proof {
                assert(values@.take(i + 1).drop_last() =~= values@.take(i as int));
            }
            out.append(
                if i == 0 {
                    " %"
                } else {
                    ", %"
                },
            );
            push_dec(out, values[i].0 as u64);
            i = i + 1;
        }
        assert(values@.take(i as int) =~= values@);
    }

    /// Appends what an operation says besides its values.
    fn push_detail(&self, out: &mut String, op: TileOp)
        requires
            self@.knows(op),
        ensures
            final(out)@ == old(out)@ + detail_text(op, self@.args),
    {
        let ghost start = out@;
        proof {
            reveal_strlit("");
        }
        match op {
            TileOp::Arg { index, .. } => {
                out.append(" /*");
                out.append(self.args[index].as_str());
                out.append("*/");
            },
            TileOp::ProgramId { axis, .. } => {
                out.append(" ");
                push_dec(out, axis as u64);
            },
            TileOp::Arange { start, end, .. } => {
                out.append(" ");
                push_dec(out, start as u64);
                out.append("..");
                push_dec(out, end as u64);
            },
            TileOp::ThreadIdX2D { block_x, .. } => {
                out.append(" ");
                push_dec(out, block_x as u64);
            },
            TileOp::ThreadIdY2D { block_x, .. } => {
                out.append(" ");
                push_dec(out, block_x as u64);
            },
            TileOp::ConstU32 { value, .. } => {
                out.append(" ");
                push_dec(out, value as u64);
            },
            TileOp::ConstF32 { bits, .. } => {
                out.append(" ");
                push_hex_padded(out, bits as u64, 8);
            },
            TileOp::Splat { bits, .. } => {
                out.append(" ");
                push_hex_padded(out, bits as u64, 8);
            },
            TileOp::WgReduce { block_size, .. } => {
                out.append(" ");
                push_dec(out, block_size as u64);
            },
            TileOp::LdsAlloc { size, .. } => {
                out.append(" ");
                push_dec(out, size as u64);
            },
            TileOp::ExtractF32 { idx, .. } => {
                out.append(" ");
                push_dec(out, idx as u64);
            },
            TileOp::Jump { target, .. } => {
                out.append(" bb");
                push_dec(out, target as u64);
            },
            TileOp::JumpAcc { target, .. } => {
                out.append(" bb");
                push_dec(out, target as u64);
            },
            TileOp::Branch { on_true, on_false, .. } => {
                out.append(" bb");
                push_dec(out, on_true as u64);
                out.append(" bb");
                push_dec(out, on_false as u64);
            },
            _ => {},
        }
        assert(out@ =~= start + detail_text(op, self@.args));
    }

    /// Appends a type.
    fn push_type(out: &mut String, ty: TileType)
        ensures
            final(out)@ == old(out)@ + type_text(ty),
    {
        let ghost start = out@;
        proof {
            reveal_strlit("");
        }
        out.append(ty.dtype.name());
        if ty.rows > 1 || ty.cols > 1 {
            out.append("x");
            push_dec(out, ty.rows as u64);
        }
        if ty.cols > 1 {
            out.append("x");
            push_dec(out, ty.cols as u64);
        }
        out.append(
            match ty.layout {
                TensorLayout::Blocked => "",
                TensorLayout::Shared => " #shared",
                TensorLayout::MmaAccumulator => " #mma",
            },
        );
        assert(out@ =~= start + type_text(ty));
    }

    /// Appends the line of an operation.
    fn push_line(&self, out: &mut String, op: TileOp)
        requires
            self@.knows(op),
        ensures
            final(out)@ == old(out)@ + line_text(self@, op),
    {
        let ghost start = out@;
        proof {
            reveal_strlit("");
        }
        out.append("  ");
        match op.result() {
            Some(v) => {
                out.append("%");
                push_dec(out, v.0 as u64);
                out.append(" = ");
            },
            None => {},
        }
        out.append(op.name());
        let uses = op.uses();
        Self::push_values(out, &uses);
        self.push_detail(out, op);
        match op.result() {
            Some(v) => {
                out.append(" : ");
                Self::push_type(out, self.types[v.0]);
            },
            None => {},
        }
        out.append("\n");
        assert(out@ =~= start + line_text(self@, op));
    }

    /// Appends a block.
    fn push_block(&self, out: &mut String, at: usize)
        requires
            self@.wf(),
            at < self@.blocks.len(),
        ensures
            final(out)@ == old(out)@ + block_text(self@, at as int),
    {
        let ghost start = out@;
        let ghost b = self@.blocks[at as int];
        assert(b == self.blocks@[at as int]@);
        out.append("bb");
        push_dec(out, at as u64);
        Self::push_values(out, &self.blocks[at].params);
        out.append(":\n");
        let ghost head = out@;
        let mut i: usize = 0;
        assert(b.ops.take(0) =~= Seq::empty());
        while i < self.blocks[at].ops.len()
            invariant
                self@.wf(),
                at < self.blocks.len(),
                self@.blocks.len() == self.blocks.len(),
                b == self@.blocks[at as int],
                b == self.blocks@[at as int]@,
                i <= b.ops.len(),
                out@ =~= head + lines_text(self@, b.ops.take(i as int)),
            decreases b.ops.len() - i,
        {
            proof {
                assert(b.ops.take(i + 1).drop_last() =~= b.ops.take(i as int));
                assert(self@.knows_block(self@.blocks[at as int]));
                assert(self@.knows(b.ops[i as int]));
            }
            self.push_line(out, self.blocks[at].ops[i]);
            i = i + 1;
        }
        assert(b.ops.take(i as int) =~= b.ops);
        assert(out@ =~= start + block_text(self@, at as int));
    }

    /// The function as text.
    pub fn dump(&self) -> (r: String)
        requires
            self@.wf(),
        ensures
            r@ == func_text(self@),
    {
        let mut out = String::new();
        out.append("func ");
        out.append(self.name.as_str());
        out.append("\n");
        let ghost head = out@;
        let mut i: usize = 0;
        while i < self.blocks.len()
            invariant
                self@.wf(),
                self@.blocks.len() == self.blocks.len(),
                i <= self.blocks.len(),
                out@ =~= head + blocks_text(self@, i as int),
            decreases self.blocks.len() - i,
        {
            self.push_block(&mut out, i);
            i = i + 1;
        }
        assert(out@ =~= func_text(self@));
        out
    }
}

/// Values behind a blank, separated by commas.
pub open spec fn values_text(values: Seq<Value>) -> Seq<char>
    decreases values.len(),
{
    if values.len() == 0 {
        Seq::empty()
    } else {
        values_text(values.drop_last()) + (if values.len() == 1 {
            " %"@
        } else {
            ", %"@
        }) + dec(values.last().0 as nat)
    }
}

/// How a type is written.
pub open spec fn type_text(ty: TileType) -> Seq<char> {
    dtype_text(ty.dtype) + (if ty.rows > 1 || ty.cols > 1 {
        "x"@ + dec(ty.rows as nat)
    } else {
        ""@
    }) + (if ty.cols > 1 {
        "x"@ + dec(ty.cols as nat)
    } else {
        ""@
    }) + match ty.layout {
        TensorLayout::Blocked => ""@,
        TensorLayout::Shared => " #shared"@,
        TensorLayout::MmaAccumulator => " #mma"@,
    }
}

/// The line of an operation.
pub open spec fn line_text(s: FuncState, op: TileOp) -> Seq<char> {
    "  "@ + (match op.defines() {
        Some(v) => "%"@ + dec(v.0 as nat) + " = "@,
        None => ""@,
    }) + op.called() + values_text(op.used()) + detail_text(op, s.args) + (match op.defines() {
        Some(v) => " : "@ + type_text(s.ty(v)),
        None => ""@,
    }) + "\n"@
}

/// The lines of operations.
pub open spec fn lines_text(s: FuncState, ops: Seq<TileOp>) -> Seq<char>
    decreases ops.len(),
{
    if ops.len() == 0 {
        Seq::empty()
    } else {
        lines_text(s, ops.drop_last()) + line_text(s, ops.last())
    }
}

/// A block with its number.
pub open spec fn block_text(s: FuncState, i: int) -> Seq<char> {
    "bb"@ + dec(i as nat) + values_text(s.blocks[i].params) + ":\n"@ + lines_text(
        s,
        s.blocks[i].ops,
    )
}

/// The first `n` blocks.
pub open spec fn blocks_text(s: FuncState, n: int) -> Seq<char>
    decreases n,
{
    if n <= 0 {
        Seq::empty()
    } else {
        blocks_text(s, n - 1) + block_text(s, n - 1)
    }
}

/// A function as text.
pub open spec fn func_text(s: FuncState) -> Seq<char> {
    "func "@ + s.name + "\n"@ + blocks_text(s, s.blocks.len() as int)
}

/// The operations of blocks, one behind the other.
pub open spec fn ops_of(blocks: Seq<BlockText>) -> Seq<TileOp>
    decreases blocks.len(),
{
    if blocks.len() == 0 {
        Seq::empty()
    } else {
        ops_of(blocks.drop_last()) + blocks.last().ops
    }
}

/// How often a value is a parameter.
pub open spec fn param_count(params: Seq<Value>, v: int) -> nat
    decreases params.len(),
{
    if params.len() == 0 {
        0
    } else {
        param_count(params.drop_last(), v) + if params.last().0 == v {
            1nat
        } else {
            0
        }
    }
}

/// How often operations define a value.
pub open spec fn result_count(ops: Seq<TileOp>, v: int) -> nat
    decreases ops.len(),
{
    if ops.len() == 0 {
        0
    } else {
        result_count(ops.drop_last(), v) + defines_value(ops.last(), v)
    }
}

/// Whether an operation defines a value: once or never.
pub open spec fn defines_value(op: TileOp, v: int) -> nat {
    match op.defines() {
        Some(w) => if w.0 == v {
            1
        } else {
            0
        },
        None => 0,
    }
}

/// How often a block defines a value.
pub open spec fn block_count(b: BlockText, v: int) -> nat {
    param_count(b.params, v) + result_count(b.ops, v)
}

/// How often blocks define a value.
pub open spec fn def_count(blocks: Seq<BlockText>, v: int) -> nat
    decreases blocks.len(),
{
    if blocks.len() == 0 {
        0
    } else {
        def_count(blocks.drop_last(), v) + block_count(blocks.last(), v)
    }
}

/// The count after an operation was appended to a block.
proof fn lemma_count_op(blocks: Seq<BlockText>, at: int, op: TileOp, v: int)
    requires
        0 <= at < blocks.len(),
    ensures
        ({
            let b = blocks[at];
            def_count(blocks.update(at, BlockText { ops: b.ops.push(op), ..b }), v) == def_count(
                blocks,
                v,
            ) + defines_value(op, v)
        }),
    decreases blocks.len(),
{
    let b = blocks[at];
    let more = BlockText { ops: b.ops.push(op), ..b };
    let after = blocks.update(at, more);
    assert(more.ops.drop_last() =~= b.ops);
    if at == blocks.len() - 1 {
        assert(after.drop_last() =~= blocks.drop_last());
    } else {
        assert(after.drop_last() =~= blocks.drop_last().update(at, more));
        lemma_count_op(blocks.drop_last(), at, op, v);
    }
}

/// The count after a block was added.
proof fn lemma_count_block(blocks: Seq<BlockText>, b: BlockText, v: int)
    ensures
        def_count(blocks.push(b), v) == def_count(blocks, v) + block_count(b, v),
{
    assert(blocks.push(b).drop_last() =~= blocks);
}

/// What is known stays known when there are more values and more names.
proof fn lemma_knows_more(a: FuncState, b: FuncState)
    requires
        forall|i: int| 0 <= i < a.blocks.len() ==> a.knows_block(#[trigger] a.blocks[i]),
        a.types.len() <= b.types.len(),
        a.args.len() <= b.args.len(),
    ensures
        forall|i: int| 0 <= i < a.blocks.len() ==> b.knows_block(#[trigger] a.blocks[i]),
{
    assert forall|i: int| 0 <= i < a.blocks.len() implies b.knows_block(#[trigger] a.blocks[i]) by {
        assert(a.knows_block(a.blocks[i]));
        assert forall|j: int| 0 <= j < a.blocks[i].ops.len() implies b.knows(
            #[trigger] a.blocks[i].ops[j],
        ) by {
            assert(a.knows(a.blocks[i].ops[j]));
        }
    }
}

/// One more operation in the current block is known if it is known itself.
proof fn lemma_knows_op(s: FuncState, op: TileOp)
    requires
        0 <= s.current < s.blocks.len(),
        forall|i: int| 0 <= i < s.blocks.len() ==> s.knows_block(#[trigger] s.blocks[i]),
        s.knows(op),
    ensures
        forall|i: int|
            0 <= i < s.with_op(op).blocks.len() ==> s.with_op(op).knows_block(
                #[trigger] s.with_op(op).blocks[i],
            ),
{
    let t = s.with_op(op);
    assert forall|i: int| 0 <= i < t.blocks.len() implies t.knows_block(#[trigger] t.blocks[i]) by {
        assert(s.knows_block(s.blocks[i]));
        assert forall|j: int| 0 <= j < t.blocks[i].ops.len() implies t.knows(
            #[trigger] t.blocks[i].ops[j],
        ) by {
            if j < s.blocks[i].ops.len() {
                assert(s.knows(s.blocks[i].ops[j]));
            } else {
                assert(t.blocks[i].ops[j] == op);
                assert(s.knows(op));
            }
        }
        assert forall|j: int| 0 <= j < t.blocks[i].params.len() implies (
        #[trigger] t.blocks[i].params[j]).0 < t.types.len() by {
            assert(s.blocks[i].params[j].0 < s.types.len());
        }
    }
}

/// Defining the next value keeps a function well formed.
proof fn lemma_define(s: FuncState, ty: TileType, op: TileOp)
    requires
        s.wf(),
        s.types.len() <= usize::MAX,
        s.with_value(ty).knows(op),
        op.defines() == Some(s.next()),
    ensures
        s.define(ty, op).wf(),
{
    let t = s.define(ty, op);
    lemma_knows_more(s, s.with_value(ty));
    lemma_knows_op(s.with_value(ty), op);
    assert(t.defined_once()) by {
        reveal(FuncState::defined_once);
        assert forall|v: int|
            #[trigger] def_count(t.blocks, v) == if 0 <= v < t.types.len() {
                1nat
            } else {
                0
            } by {
            lemma_count_op(s.blocks, s.current, op, v);
            assert(def_count(s.blocks, v) == if 0 <= v < s.types.len() {
                1nat
            } else {
                0
            });
        }
    }
}

/// Operations that define nothing keep a function well formed.
proof fn lemma_plain(s: FuncState, op: TileOp)
    requires
        s.wf(),
        s.knows(op),
        op.defines() is None,
    ensures
        s.with_op(op).wf(),
{
    let t = s.with_op(op);
    lemma_knows_op(s, op);
    assert(t.defined_once()) by {
        reveal(FuncState::defined_once);
        assert forall|v: int|
            #[trigger] def_count(t.blocks, v) == if 0 <= v < t.types.len() {
                1nat
            } else {
                0
            } by {
            lemma_count_op(s.blocks, s.current, op, v);
            assert(def_count(s.blocks, v) == if 0 <= v < s.types.len() {
                1nat
            } else {
                0
            });
        }
    }
}

/// More names keep a function well formed.
proof fn lemma_more_args(a: FuncState, b: FuncState)
    requires
        a.wf(),
        b == (FuncState { args: b.args, ..a }),
        a.args.len() <= b.args.len(),
    ensures
        b.wf(),
{
    lemma_knows_more(a, b);
    reveal(FuncState::defined_once);
}

/// So does going on in another block.
proof fn lemma_leave(s: FuncState, block: int)
    requires
        s.wf(),
        0 <= block < s.blocks.len(),
    ensures
        (FuncState { current: block, ..s }).wf(),
{
    lemma_knows_more(s, FuncState { current: block, ..s });
    reveal(FuncState::defined_once);
}

/// The next `n` values.
pub open spec fn loop_params(s: FuncState, n: nat) -> Seq<Value> {
    Seq::new(n, |i: int| Value((s.types.len() + i) as usize))
}

/// The head of a loop: tests the counter, its first parameter.
pub open spec fn loop_head(s: FuncState, params: Seq<Value>, end: Value) -> BlockText {
    let n = s.blocks.len();
    let cond = Value((s.types.len() + params.len()) as usize);
    BlockText {
        params,
        ops: seq![
            TileOp::Compare { result: cond, kind: CmpOpKind::Lt, lhs: params[0], rhs: end },
            TileOp::Branch { cond, on_true: (n + 1) as usize, on_false: (n + 2) as usize },
        ],
    }
}

/// With the head, the body and the exit of a loop.
pub open spec fn with_loop(
    s: FuncState,
    params: Seq<Value>,
    types: Seq<TileType>,
    end: Value,
) -> FuncState {
    FuncState {
        types: (s.types + types).push(scalar_type(ScalarDType::Bool)),
        blocks: s.blocks.push(loop_head(s, params, end)).push(empty_block()).push(empty_block()),
        current: (s.blocks.len() + 1) as int,
        ..s
    }
}

/// A loop keeps a function well formed.
proof fn lemma_loop(s: FuncState, params: Seq<Value>, types: Seq<TileType>, end: Value)
    requires
        s.wf(),
        end.0 < s.types.len(),
        params.len() == types.len(),
        1 <= params.len() <= 2,
        s.types.len() + params.len() <= usize::MAX,
        forall|i: int| 0 <= i < params.len() ==> (#[trigger] params[i]).0 == s.types.len() + i,
    ensures
        with_loop(s, params, types, end).wf(),
{
    let t = with_loop(s, params, types, end);
    let head = loop_head(s, params, end);
    lemma_knows_more(s, t);
    assert(t.knows(head.ops[0]));
    assert(t.knows(head.ops[1]));
    assert(t.knows_block(head));
    assert(t.knows_block(empty_block()));
    assert forall|i: int| 0 <= i < t.blocks.len() implies t.knows_block(#[trigger] t.blocks[i]) by {
        if i < s.blocks.len() {
            assert(t.blocks[i] == s.blocks[i]);
        } else if i == s.blocks.len() {
            assert(t.blocks[i] == head);
        } else {
            assert(t.blocks[i] == empty_block());
        }
    }
    assert(t.defined_once()) by {
        reveal(FuncState::defined_once);
        assert forall|v: int|
            #[trigger] def_count(t.blocks, v) == if 0 <= v < t.types.len() {
                1nat
            } else {
                0
            } by {
            let one = s.blocks.push(head);
            lemma_count_block(s.blocks, head, v);
            lemma_count_block(one, empty_block(), v);
            lemma_count_block(one.push(empty_block()), empty_block(), v);
            reveal_with_fuel(param_count, 3);
            reveal_with_fuel(result_count, 3);
            assert(head.ops.drop_last() =~= seq![head.ops[0]]);
            assert(head.ops.drop_last().drop_last() =~= Seq::empty());
            if params.len() == 2 {
                assert(params.drop_last() =~= seq![params[0]]);
                assert(params.drop_last().drop_last() =~= Seq::empty());
            } else {
                assert(params.drop_last() =~= Seq::empty());
            }
            assert(def_count(s.blocks, v) == if 0 <= v < s.types.len() {
                1nat
            } else {
                0
            });
        }
    }
}

} // verus!
