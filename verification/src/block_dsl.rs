//! Kernels as graphs of per-thread values.
//!
//! A `BlockKernel` collects nodes: arguments, indices, constants, arithmetic, memory
//! accesses, loops. Each node yields one value per thread, known by its place in the list.
use vstd::prelude::*;

use crate::compile::T0Kernel;
use crate::dsl::{CompiledKernel, meta_of, meta_texts};
use crate::gemm_gen::{
    EpilogueOp, GemmConfig, GemmTranspose, auto_select, config_name, lds_tile, selected,
};
use crate::ir::KernArgText;
use crate::text::{dec, push_dec};

verus! {

/// The natural logarithm of two, as the bits of a float.
pub const LN_2: u32 = 0x3F31_7218;

/// The logarithm of e to base two, as the bits of a float.
pub const LOG2_E: u32 = 0x3FB8_AA3B;

/// 0.5.
pub const HALF: u32 = 0x3F00_0000;

/// 1.0.
pub const ONE: u32 = 0x3F80_0000;

/// 2.0.
pub const TWO: u32 = 0x4000_0000;

/// 0.044715.
pub const GELU_CUBE: u32 = 0x3D37_2713;

/// The square root of 2/π.
pub const SQRT_2_OVER_PI: u32 = 0x3F4C_422A;

/// Negative infinity.
pub const NEG_INFINITY: u32 = 0xFF80_0000;

/// The largest finite float.
pub const F32_MAX: u32 = 0x7F7F_FFFF;

/// 255.0.
pub const F255: u32 = 0x437F_0000;

/// What a whole matrix multiplication looks like: `Y[M,N] = X[M,K] * WT[N,K]^T`.
#[derive(Clone, Copy, Debug, PartialEq, Eq, Structural)]
pub struct TileGemmConfig {
    pub tile_m: u32,
    pub tile_n: u32,
    pub tile_k: u32,
    pub wgp_mode: bool,
    pub split_k: u32,
    pub swap_grid: bool,
}

impl TileGemmConfig {
    /// The sizes that are chosen for given matrices.
    pub fn auto(m: u32, k: u32, n: u32) -> (r: Self)
        ensures
            r.tile_m == selected(m, k, n).tile_m,
            r.tile_n == selected(m, k, n).tile_n,
            r.tile_k == selected(m, k, n).tile_k,
            r.wgp_mode == selected(m, k, n).wgp_mode,
            r.split_k == selected(m, k, n).splits(),
            r.swap_grid == selected(m, k, n).swap_grid,
    {
        let cfg = auto_select(m, k, n);
        TileGemmConfig {
            tile_m: cfg.tile_m,
            tile_n: cfg.tile_n,
            tile_k: cfg.tile_k,
            wgp_mode: cfg.wgp_mode,
            split_k: match cfg.split_k {
                Some(sk) => sk,
                None => 1,
            },
            swap_grid: cfg.swap_grid,
        }
    }

    /// The kernel configuration: one wave per 32 rows.
    pub open spec fn gemm_config(self) -> GemmConfig {
        GemmConfig {
            split_k: if self.split_k > 1 {
                Some(self.split_k)
            } else {
                None
            },
            swap_grid: self.swap_grid,
            wgp_mode: self.wgp_mode,
            ..lds_tile(
                self.tile_m,
                self.tile_n,
                self.tile_k,
                (self.tile_m as int / 32 * 32) as u32,
            )
        }
    }

    /// The kernel configuration: one wave per 32 rows.
    pub fn to_gemm_config(&self) -> (r: GemmConfig)
        ensures
            r == self.gemm_config(),
    {
        GemmConfig {
            tile_m: self.tile_m,
            tile_n: self.tile_n,
            tile_k: self.tile_k,
            wg_size: (self.tile_m / 32) * 32,
            use_lds: true,
            double_buffer: true,
            split_k: if self.split_k > 1 {
                Some(self.split_k)
            } else {
                None
            },
            lds_pad: 0,
            n_col_passes: 1,
            swap_grid: self.swap_grid,
            wgp_mode: self.wgp_mode,
            transpose: GemmTranspose::NT,
            epilogue: EpilogueOp::StoreF32,
        }
    }

    /// The name of the kernel configuration.
    pub fn name(&self) -> (r: String)
        ensures
            r@ == config_name(self.gemm_config()),
    {
        self.to_gemm_config().name()
    }
}

/// A compiled kernel with the grid to launch it on.
#[derive(Debug)]
pub struct AutoCompiledKernel {
    pub kernel: CompiledKernel,
    pub grid: [u32; 3],
}

/// A value of a kernel: the place of its node.
#[derive(Clone, Copy, Debug, PartialEq, Eq, Hash, Structural)]
pub struct BVal(pub usize);

/// What a value is.
#[derive(Clone, Copy, Debug, PartialEq, Eq, Structural)]
pub enum BType {
    F32,
    U32,
    /// One bit per lane.
    Mask,
    /// A 64-bit address.
    Ptr,
    /// A place in the local data share.
    LdsPtr,
    /// Eight floats.
    F32x8,
}

/// A node of a kernel. `S` is how names are written down.
#[derive(Debug)]
#[allow(inconsistent_fields)]
pub enum BNode<S = String> {
    /// A 64-bit pointer argument.
    ArgPtr(S),
    /// An unsigned argument.
    ArgU32(S),
    /// A float argument.
    ArgF32(S),
    /// The number of the workgroup along an axis.
    ProgramId(u8),
    /// The number of the thread along x.
    ThreadId,
    /// The number of the thread along y.
    ThreadIdY { block_x: u32 },
    /// `start`, `start + 1`, … : one per thread.
    Arange { start: u32, end: u32 },
    /// An unsigned constant.
    ConstU32(u32),
    /// A float constant, by its bits.
    ConstF32(u32),
    AddF32(BVal, BVal),
    MulF32(BVal, BVal),
    SubF32(BVal, BVal),
    /// Two to the power of x.
    ExpF32(BVal),
    /// The logarithm to base two.
    Log2F32(BVal),
    SqrtF32(BVal),
    RcpF32(BVal),
    RsqrtF32(BVal),
    AbsF32(BVal),
    NegF32(BVal),
    /// The sine of x.
    SinF32(BVal),
    /// The cosine of x.
    CosF32(BVal),
    DivF32(BVal, BVal),
    MaxF32(BVal, BVal),
    MinF32(BVal, BVal),
    /// `a * b + c`.
    FmaF32(BVal, BVal, BVal),
    AddU32(BVal, BVal),
    SubU32(BVal, BVal),
    /// The low 32 bits of the product.
    MulU32(BVal, BVal),
    ShrConstU32(BVal, u8),
    ShlConstU32(BVal, u8),
    AndConstU32(BVal, u32),
    OrConstU32(BVal, u32),
    XorConstU32(BVal, u32),
    /// `a < b`, one bit per lane.
    LtU32(BVal, BVal),
    /// `a >= b`, one bit per lane.
    GeU32(BVal, BVal),
    CmpLtF32(BVal, BVal),
    CmpGtF32(BVal, BVal),
    CmpEqF32(BVal, BVal),
    /// Both masks.
    AndBool(BVal, BVal),
    /// One value where the mask is set, the other elsewhere.
    Select { mask: BVal, true_val: BVal, false_val: BVal },
    /// Loads a float from `ptr + 4 * offset`.
    Load { ptr: BVal, offsets: BVal, mask: BVal },
    /// Loads a word from `ptr + 4 * offset`.
    LoadU32 { ptr: BVal, offsets: BVal, mask: BVal },
    /// Stores a float at `ptr + 4 * offset`.
    Store { ptr: BVal, offsets: BVal, val: BVal, mask: BVal },
    /// Adds to the float at `ptr + 4 * offset`.
    AtomicAddF32 { ptr: BVal, offsets: BVal, val: BVal, mask: BVal },
    /// Adds to a word and gives the old value.
    AtomicAddU32Rtn { ptr: BVal, val: BVal },
    /// Loads a bf16 from `ptr + 2 * offset` as a float.
    LoadBf16 { ptr: BVal, offsets: BVal, mask: BVal },
    /// Stores the upper half of a float at `ptr + 2 * offset`.
    StoreBf16 { ptr: BVal, offsets: BVal, val: BVal, mask: BVal },
    /// Unsigned to float.
    CvtF32U32(BVal),
    /// Float to unsigned.
    CvtU32F32(BVal),
    /// The bf16 in the lower half as a float.
    CvtF32BF16(BVal),
    WaveReduceAddF32(BVal),
    WaveReduceMaxF32(BVal),
    /// Space in the local data share.
    LdsAlloc { size_bytes: u32 },
    LdsLoad { base: BVal, offset: BVal },
    LdsStore { base: BVal, offset: BVal, val: BVal },
    /// Waits for the other waves.
    Barrier,
    /// The lanes of the mask go on.
    IfMask(BVal),
    /// The other lanes go on.
    ElseMask,
    /// All lanes go on again.
    EndIf,
    /// Begins a loop and gives its counter.
    ForBegin { start: BVal, end: BVal, step: u32 },
    /// Ends a loop.
    ForEnd { begin_node: usize },
    /// Begins a loop that carries a value and gives its counter.
    ForAccBegin { start: BVal, end: BVal, step: u32, init_acc: BVal },
    /// The carried value inside the loop.
    ForAccPhi { begin_node: usize },
    /// Ends a loop that carries a value.
    ForAccEnd { begin_node: usize, new_acc: BVal },
    /// The carried value behind the loop.
    ForAccResult { begin_node: usize },
    WgReduceAddF32(BVal),
    WgReduceMaxF32(BVal),
    WgReduceMinF32(BVal),
    /// Eight zero floats.
    ZeroAcc,
    /// Two floats packed as bf16.
    CvtPkBf16F32 { lo: BVal, hi: BVal },
    /// `a * b + c` on matrix fragments.
    Wmma { a: BVal, b: BVal, c: BVal },
    /// One of eight floats.
    ExtractF32 { src: BVal, idx: u32 },
    /// One word eight times.
    SplatFragment(BVal),
    /// A whole matrix multiplication; takes over the kernel.
    TileGemm {
        a_ptr: BVal,
        b_ptr: BVal,
        y_ptr: BVal,
        k_dim: BVal,
        n_dim: BVal,
        config: TileGemmConfig,
    },
}

impl View for BNode<String> {
    type V = BNode<Seq<char>>;

    open spec fn view(&self) -> BNode<Seq<char>> {
        match *self {
            BNode::ArgPtr(a) => BNode::ArgPtr(a@),
            BNode::ArgU32(a) => BNode::ArgU32(a@),
            BNode::ArgF32(a) => BNode::ArgF32(a@),
            BNode::ProgramId(a) => BNode::ProgramId(a),
            BNode::ThreadId => BNode::ThreadId,
            BNode::ThreadIdY { block_x } => BNode::ThreadIdY { block_x },
            BNode::Arange { start, end } => BNode::Arange { start, end },
            BNode::ConstU32(a) => BNode::ConstU32(a),
            BNode::ConstF32(a) => BNode::ConstF32(a),
            BNode::AddF32(a, b) => BNode::AddF32(a, b),
            BNode::MulF32(a, b) => BNode::MulF32(a, b),
            BNode::SubF32(a, b) => BNode::SubF32(a, b),
            BNode::ExpF32(a) => BNode::ExpF32(a),
            BNode::Log2F32(a) => BNode::Log2F32(a),
            BNode::SqrtF32(a) => BNode::SqrtF32(a),
            BNode::RcpF32(a) => BNode::RcpF32(a),
            BNode::RsqrtF32(a) => BNode::RsqrtF32(a),
            BNode::AbsF32(a) => BNode::AbsF32(a),
            BNode::NegF32(a) => BNode::NegF32(a),
            BNode::SinF32(a) => BNode::SinF32(a),
            BNode::CosF32(a) => BNode::CosF32(a),
            BNode::DivF32(a, b) => BNode::DivF32(a, b),
            BNode::MaxF32(a, b) => BNode::MaxF32(a, b),
            BNode::MinF32(a, b) => BNode::MinF32(a, b),
            BNode::FmaF32(a, b, c) => BNode::FmaF32(a, b, c),
            BNode::AddU32(a, b) => BNode::AddU32(a, b),
            BNode::SubU32(a, b) => BNode::SubU32(a, b),
            BNode::MulU32(a, b) => BNode::MulU32(a, b),
            BNode::ShrConstU32(a, b) => BNode::ShrConstU32(a, b),
            BNode::ShlConstU32(a, b) => BNode::ShlConstU32(a, b),
            BNode::AndConstU32(a, b) => BNode::AndConstU32(a, b),
            BNode::OrConstU32(a, b) => BNode::OrConstU32(a, b),
            BNode::XorConstU32(a, b) => BNode::XorConstU32(a, b),
            BNode::LtU32(a, b) => BNode::LtU32(a, b),
            BNode::GeU32(a, b) => BNode::GeU32(a, b),
            BNode::CmpLtF32(a, b) => BNode::CmpLtF32(a, b),
            BNode::CmpGtF32(a, b) => BNode::CmpGtF32(a, b),
            BNode::CmpEqF32(a, b) => BNode::CmpEqF32(a, b),
            BNode::AndBool(a, b) => BNode::AndBool(a, b),
            BNode::Select { mask, true_val, false_val } => BNode::Select {
                mask,
                true_val,
                false_val,
            },
            BNode::Load { ptr, offsets, mask } => BNode::Load { ptr, offsets, mask },
            BNode::LoadU32 { ptr, offsets, mask } => BNode::LoadU32 { ptr, offsets, mask },
            BNode::Store { ptr, offsets, val, mask } => BNode::Store { ptr, offsets, val, mask },
            BNode::AtomicAddF32 { ptr, offsets, val, mask } => BNode::AtomicAddF32 {
                ptr,
                offsets,
                val,
                mask,
            },
            BNode::AtomicAddU32Rtn { ptr, val } => BNode::AtomicAddU32Rtn { ptr, val },
            BNode::LoadBf16 { ptr, offsets, mask } => BNode::LoadBf16 { ptr, offsets, mask },
            BNode::StoreBf16 { ptr, offsets, val, mask } => BNode::StoreBf16 {
                ptr,
                offsets,
                val,
                mask,
            },
            BNode::CvtF32U32(a) => BNode::CvtF32U32(a),
            BNode::CvtU32F32(a) => BNode::CvtU32F32(a),
            BNode::CvtF32BF16(a) => BNode::CvtF32BF16(a),
            BNode::WaveReduceAddF32(a) => BNode::WaveReduceAddF32(a),
            BNode::WaveReduceMaxF32(a) => BNode::WaveReduceMaxF32(a),
            BNode::LdsAlloc { size_bytes } => BNode::LdsAlloc { size_bytes },
            BNode::LdsLoad { base, offset } => BNode::LdsLoad { base, offset },
            BNode::LdsStore { base, offset, val } => BNode::LdsStore { base, offset, val },
            BNode::Barrier => BNode::Barrier,
            BNode::IfMask(a) => BNode::IfMask(a),
            BNode::ElseMask => BNode::ElseMask,
            BNode::EndIf => BNode::EndIf,
            BNode::ForBegin { start, end, step } => BNode::ForBegin { start, end, step },
            BNode::ForEnd { begin_node } => BNode::ForEnd { begin_node },
            BNode::ForAccBegin { start, end, step, init_acc } => BNode::ForAccBegin {
                start,
                end,
                step,
                init_acc,
            },
            BNode::ForAccPhi { begin_node } => BNode::ForAccPhi { begin_node },
            BNode::ForAccEnd { begin_node, new_acc } => BNode::ForAccEnd { begin_node, new_acc },
            BNode::ForAccResult { begin_node } => BNode::ForAccResult { begin_node },
            BNode::WgReduceAddF32(a) => BNode::WgReduceAddF32(a),
            BNode::WgReduceMaxF32(a) => BNode::WgReduceMaxF32(a),
            BNode::WgReduceMinF32(a) => BNode::WgReduceMinF32(a),
            BNode::ZeroAcc => BNode::ZeroAcc,
            BNode::CvtPkBf16F32 { lo, hi } => BNode::CvtPkBf16F32 { lo, hi },
            BNode::Wmma { a, b, c } => BNode::Wmma { a, b, c },
            BNode::ExtractF32 { src, idx } => BNode::ExtractF32 { src, idx },
            BNode::SplatFragment(a) => BNode::SplatFragment(a),
            BNode::TileGemm { a_ptr, b_ptr, y_ptr, k_dim, n_dim, config } => BNode::TileGemm {
                a_ptr,
                b_ptr,
                y_ptr,
                k_dim,
                n_dim,
                config,
            },
        }
    }
}

/// What the value of a node is. Nodes without a value count as unsigned.
pub open spec fn node_type<S>(node: BNode<S>) -> BType {
    match node {
        BNode::ArgPtr(..) => BType::Ptr,
        BNode::LtU32(..) | BNode::GeU32(..) | BNode::CmpLtF32(..) | BNode::CmpGtF32(..)
        | BNode::CmpEqF32(..) | BNode::AndBool(..) => BType::Mask,
        BNode::LdsAlloc { .. } => BType::LdsPtr,
        BNode::ZeroAcc | BNode::Wmma { .. } | BNode::SplatFragment(..) => BType::F32x8,
        BNode::ArgF32(..) | BNode::ConstF32(..) | BNode::AddF32(..) | BNode::MulF32(..)
        | BNode::SubF32(..) | BNode::ExpF32(..) | BNode::Log2F32(..) | BNode::SqrtF32(..)
        | BNode::RcpF32(..) | BNode::RsqrtF32(..) | BNode::AbsF32(..) | BNode::NegF32(..)
        | BNode::SinF32(..) | BNode::CosF32(..) | BNode::DivF32(..) | BNode::MaxF32(..)
        | BNode::MinF32(..) | BNode::FmaF32(..) | BNode::Select { .. } | BNode::Load { .. }
        | BNode::LoadBf16 { .. } | BNode::CvtF32U32(..) | BNode::CvtF32BF16(..)
        | BNode::WaveReduceAddF32(..) | BNode::WaveReduceMaxF32(..) | BNode::LdsLoad { .. }
        | BNode::ForAccPhi { .. } | BNode::ForAccResult { .. } | BNode::WgReduceAddF32(..)
        | BNode::WgReduceMaxF32(..)
        | BNode::WgReduceMinF32(..)
        | BNode::ExtractF32 { .. } => BType::F32,
        BNode::ArgU32(..) | BNode::ProgramId(..) | BNode::ThreadId | BNode::ThreadIdY { .. }
        | BNode::Arange { .. } | BNode::ConstU32(..) | BNode::AddU32(..) | BNode::SubU32(..)
        | BNode::MulU32(..) | BNode::ShrConstU32(..) | BNode::ShlConstU32(..)
        | BNode::AndConstU32(..) | BNode::OrConstU32(..) | BNode::XorConstU32(..)
        | BNode::LoadU32 { .. } | BNode::Store { .. } | BNode::AtomicAddF32 { .. }
        | BNode::AtomicAddU32Rtn { .. } | BNode::StoreBf16 { .. } | BNode::CvtU32F32(..)
        | BNode::LdsStore { .. } | BNode::Barrier | BNode::IfMask(..) | BNode::ElseMask
        | BNode::EndIf | BNode::ForBegin { .. } | BNode::ForEnd { .. }
        | BNode::ForAccBegin { .. } | BNode::ForAccEnd { .. } | BNode::CvtPkBf16F32 { .. }
        | BNode::TileGemm { .. } => BType::U32,
    }
}

impl BNode<String> {
    /// What the value of a node is.
    pub fn result_type(&self) -> (r: BType)
        ensures
            r == node_type(self@),
    {
        match self {
        BNode::ArgPtr(..) => BType::Ptr,
        BNode::LtU32(..) | BNode::GeU32(..) | BNode::CmpLtF32(..) | BNode::CmpGtF32(..)
        | BNode::CmpEqF32(..) | BNode::AndBool(..) => BType::Mask,
        BNode::LdsAlloc { .. } => BType::LdsPtr,
        BNode::ZeroAcc | BNode::Wmma { .. } | BNode::SplatFragment(..) => BType::F32x8,
        BNode::ArgF32(..) | BNode::ConstF32(..) | BNode::AddF32(..) | BNode::MulF32(..)
        | BNode::SubF32(..) | BNode::ExpF32(..) | BNode::Log2F32(..) | BNode::SqrtF32(..)
        | BNode::RcpF32(..) | BNode::RsqrtF32(..) | BNode::AbsF32(..) | BNode::NegF32(..)
        | BNode::SinF32(..) | BNode::CosF32(..) | BNode::DivF32(..) | BNode::MaxF32(..)
        | BNode::MinF32(..) | BNode::FmaF32(..) | BNode::Select { .. } | BNode::Load { .. }
        | BNode::LoadBf16 { .. } | BNode::CvtF32U32(..) | BNode::CvtF32BF16(..)
        | BNode::WaveReduceAddF32(..) | BNode::WaveReduceMaxF32(..) | BNode::LdsLoad { .. }
        | BNode::ForAccPhi { .. } | BNode::ForAccResult { .. } | BNode::WgReduceAddF32(..)
        | BNode::WgReduceMaxF32(..)
        | BNode::WgReduceMinF32(..)
        | BNode::ExtractF32 { .. } => BType::F32,
        BNode::ArgU32(..) | BNode::ProgramId(..) | BNode::ThreadId | BNode::ThreadIdY { .. }
        | BNode::Arange { .. } | BNode::ConstU32(..) | BNode::AddU32(..) | BNode::SubU32(..)
        | BNode::MulU32(..) | BNode::ShrConstU32(..) | BNode::ShlConstU32(..)
        | BNode::AndConstU32(..) | BNode::OrConstU32(..) | BNode::XorConstU32(..)
        | BNode::LoadU32 { .. } | BNode::Store { .. } | BNode::AtomicAddF32 { .. }
        | BNode::AtomicAddU32Rtn { .. } | BNode::StoreBf16 { .. } | BNode::CvtU32F32(..)
        | BNode::LdsStore { .. } | BNode::Barrier | BNode::IfMask(..) | BNode::ElseMask
        | BNode::EndIf | BNode::ForBegin { .. } | BNode::ForEnd { .. }
        | BNode::ForAccBegin { .. } | BNode::ForAccEnd { .. } | BNode::CvtPkBf16F32 { .. }
        | BNode::TileGemm { .. } => BType::U32,
        }
    }
}

/// What a kernel consists of.
#[verifier::ext_equal]
pub struct BlockState {
    pub name: Seq<char>,
    /// Threads per workgroup.
    pub block_size: u32,
    /// Threads along x.
    pub block_x: u32,
    /// Threads along y.
    pub block_y: u32,
    pub nodes: Seq<BNode<Seq<char>>>,
    /// The nodes that store.
    pub stores: Seq<BVal>,
}

impl BlockState {
    /// Whether the workgroup has between one and 32 waves.
    pub open spec fn wf(self) -> bool {
        &&& 32 <= self.block_size <= 1024
        &&& self.block_size == self.block_x * self.block_y
    }

    /// A kernel with nothing in it.
    pub open spec fn empty(name: Seq<char>, block_size: u32) -> BlockState {
        BlockState {
            name,
            block_size,
            block_x: block_size,
            block_y: 1,
            nodes: Seq::empty(),
            stores: Seq::empty(),
        }
    }

    /// The value of the next node.
    pub open spec fn next(self) -> BVal {
        BVal(self.nodes.len() as usize)
    }

    /// With one more node.
    pub open spec fn with_node(self, node: BNode<Seq<char>>) -> BlockState {
        BlockState { nodes: self.nodes.push(node), ..self }
    }

    /// With one more node that stores.
    pub open spec fn with_store(self, node: BNode<Seq<char>>) -> BlockState {
        BlockState {
            nodes: self.nodes.push(node),
            stores: self.stores.push(self.next()),
            ..self
        }
    }

    /// What a value is.
    pub open spec fn ty(self, v: BVal) -> BType {
        node_type(self.nodes[v.0 as int])
    }

    /// Whether there is such a value, of that type.
    pub open spec fn typed(self, v: BVal, ty: BType) -> bool {
        v.0 < self.nodes.len() && self.ty(v) == ty
    }

    /// Whether a value can be calculated with.
    pub open spec fn is_number(self, v: BVal) -> bool {
        v.0 < self.nodes.len() && (self.ty(v) == BType::F32 || self.ty(v) == BType::U32)
    }

    /// With a sum.
    pub open spec fn add(self, a: BVal, b: BVal) -> BlockState {
        self.with_node(
            if self.ty(a) == BType::F32 {
                BNode::AddF32(a, b)
            } else {
                BNode::AddU32(a, b)
            },
        )
    }

    /// With a product.
    pub open spec fn mul(self, a: BVal, b: BVal) -> BlockState {
        self.with_node(
            if self.ty(a) == BType::F32 {
                BNode::MulF32(a, b)
            } else {
                BNode::MulU32(a, b)
            },
        )
    }

    /// With a difference.
    pub open spec fn sub(self, a: BVal, b: BVal) -> BlockState {
        self.with_node(
            if self.ty(a) == BType::F32 {
                BNode::SubF32(a, b)
            } else {
                BNode::SubU32(a, b)
            },
        )
    }

    /// With e to the power of `x`, as two to the power of `x * log2(e)`; it is the third node.
    pub open spec fn exp(self, x: BVal) -> BlockState {
        let s = self.with_node(BNode::ConstF32(LOG2_E)).mul(x, self.next());
        s.with_node(BNode::ExpF32(BVal((self.nodes.len() + 1) as usize)))
    }

    /// With `1 / (1 + exp(-x))`; it is the seventh node.
    pub open spec fn sigmoid(self, x: BVal) -> BlockState {
        let n = self.nodes.len();
        self.with_node(BNode::NegF32(x)).exp(self.next()).with_node(BNode::ConstF32(ONE)).with_node(
            BNode::AddF32(BVal((n + 4) as usize), BVal((n + 3) as usize)),
        ).with_node(BNode::RcpF32(BVal((n + 5) as usize)))
    }

    /// With `2 * sigmoid(2x) - 1`; it is the thirteenth node.
    pub open spec fn tanh(self, x: BVal) -> BlockState {
        let n = self.nodes.len();
        let s = self.with_node(BNode::ConstF32(TWO)).mul(x, self.next());
        let s = s.sigmoid(BVal((n + 1) as usize)).with_node(BNode::ConstF32(TWO));
        let s = s.with_node(BNode::MulF32(BVal((n + 8) as usize), BVal((n + 9) as usize)));
        s.with_node(BNode::ConstF32(ONE)).with_node(
            BNode::SubF32(BVal((n + 10) as usize), BVal((n + 11) as usize)),
        )
    }

    /// With `x * sigmoid(x)`; it is the eighth node.
    pub open spec fn silu(self, x: BVal) -> BlockState {
        self.sigmoid(x).mul(x, BVal((self.nodes.len() + 6) as usize))
    }

    /// With `0.5x * (1 + tanh(sqrt(2/π) * (x + 0.044715x³)))`; it is the 25th node.
    pub open spec fn gelu(self, x: BVal) -> BlockState {
        let n = self.nodes.len();
        let at = |i: int| BVal((n + i) as usize);
        let s = self.with_node(BNode::ConstF32(HALF)).with_node(BNode::ConstF32(ONE)).with_node(
            BNode::ConstF32(GELU_CUBE),
        ).with_node(BNode::ConstF32(SQRT_2_OVER_PI));
        let s = s.mul(x, x).mul(at(4), x);
        let s = s.with_node(BNode::MulF32(at(2), at(5))).add(x, at(6));
        let s = s.with_node(BNode::MulF32(at(3), at(7))).tanh(at(8));
        s.with_node(BNode::AddF32(at(1), at(21))).with_node(BNode::MulF32(at(0), x)).with_node(
            BNode::MulF32(at(23), at(22)),
        )
    }
}

/// What nodes are, their names as characters.
pub open spec fn node_texts(nodes: Seq<BNode<String>>) -> Seq<BNode<Seq<char>>> {
    nodes.map_values(|n: BNode<String>| n@)
}

impl BVal {
    /// The sum, of floats or unsigned values.
    pub fn add(self, kb: &mut BlockKernel, other: BVal) -> (r: BVal)
        requires
            old(kb)@.is_number(self),
        ensures
            r.0 == old(kb)@.nodes.len(),
            final(kb)@ == old(kb)@.add(self, other),
    {
        match kb.get_type(self) {
            BType::F32 => kb.push(BNode::AddF32(self, other)),
            _ => kb.push(BNode::AddU32(self, other)),
        }
    }

    /// The product, of floats or unsigned values.
    pub fn mul(self, kb: &mut BlockKernel, other: BVal) -> (r: BVal)
        requires
            old(kb)@.is_number(self),
        ensures
            r.0 == old(kb)@.nodes.len(),
            final(kb)@ == old(kb)@.mul(self, other),
    {
        match kb.get_type(self) {
            BType::F32 => kb.push(BNode::MulF32(self, other)),
            _ => kb.push(BNode::MulU32(self, other)),
        }
    }

    /// The difference, of floats or unsigned values.
    pub fn sub(self, kb: &mut BlockKernel, other: BVal) -> (r: BVal)
        requires
            old(kb)@.is_number(self),
        ensures
            r.0 == old(kb)@.nodes.len(),
            final(kb)@ == old(kb)@.sub(self, other),
    {
        match kb.get_type(self) {
            BType::F32 => kb.push(BNode::SubF32(self, other)),
            _ => kb.push(BNode::SubU32(self, other)),
        }
    }

    /// `self < other`, unsigned.
    pub fn lt(self, kb: &mut BlockKernel, other: BVal) -> (r: BVal)
        ensures
            r.0 == old(kb)@.nodes.len(),
            final(kb)@ == old(kb)@.with_node(BNode::LtU32(self, other)),
    {
        kb.push(BNode::LtU32(self, other))
    }

    /// `self >= other`, unsigned.
    pub fn ge(self, kb: &mut BlockKernel, other: BVal) -> (r: BVal)
        ensures
            r.0 == old(kb)@.nodes.len(),
            final(kb)@ == old(kb)@.with_node(BNode::GeU32(self, other)),
    {
        kb.push(BNode::GeU32(self, other))
    }

    /// Both masks.
    pub fn and_bool(self, kb: &mut BlockKernel, other: BVal) -> (r: BVal)
        ensures
            r.0 == old(kb)@.nodes.len(),
            final(kb)@ == old(kb)@.with_node(BNode::AndBool(self, other)),
    {
        kb.push(BNode::AndBool(self, other))
    }

    /// Two to the power of the value.
    pub fn exp2(self, kb: &mut BlockKernel) -> (r: BVal)
        ensures
            r.0 == old(kb)@.nodes.len(),
            final(kb)@ == old(kb)@.with_node(BNode::ExpF32(self)),
    {
        kb.push(BNode::ExpF32(self))
    }

    /// The logarithm to base two.
    pub fn log2(self, kb: &mut BlockKernel) -> (r: BVal)
        ensures
            r.0 == old(kb)@.nodes.len(),
            final(kb)@ == old(kb)@.with_node(BNode::Log2F32(self)),
    {
        kb.push(BNode::Log2F32(self))
    }

    /// The square root.
    pub fn sqrt(self, kb: &mut BlockKernel) -> (r: BVal)
        ensures
            r.0 == old(kb)@.nodes.len(),
            final(kb)@ == old(kb)@.with_node(BNode::SqrtF32(self)),
    {
        kb.push(BNode::SqrtF32(self))
    }

    /// The reciprocal.
    pub fn rcp(self, kb: &mut BlockKernel) -> (r: BVal)
        ensures
            r.0 == old(kb)@.nodes.len(),
            final(kb)@ == old(kb)@.with_node(BNode::RcpF32(self)),
    {
        kb.push(BNode::RcpF32(self))
    }

    /// The reciprocal square root.
    pub fn rsqrt(self, kb: &mut BlockKernel) -> (r: BVal)
        ensures
            r.0 == old(kb)@.nodes.len(),
            final(kb)@ == old(kb)@.with_node(BNode::RsqrtF32(self)),
    {
        kb.push(BNode::RsqrtF32(self))
    }

    /// The absolute value.
    pub fn abs(self, kb: &mut BlockKernel) -> (r: BVal)
        ensures
            r.0 == old(kb)@.nodes.len(),
            final(kb)@ == old(kb)@.with_node(BNode::AbsF32(self)),
    {
        kb.push(BNode::AbsF32(self))
    }

    /// The negated value.
    pub fn neg(self, kb: &mut BlockKernel) -> (r: BVal)
        ensures
            r.0 == old(kb)@.nodes.len(),
            final(kb)@ == old(kb)@.with_node(BNode::NegF32(self)),
    {
        kb.push(BNode::NegF32(self))
    }

    /// The quotient.
    pub fn div(self, kb: &mut BlockKernel, other: BVal) -> (r: BVal)
        ensures
            r.0 == old(kb)@.nodes.len(),
            final(kb)@ == old(kb)@.with_node(BNode::DivF32(self, other)),
    {
        kb.push(BNode::DivF32(self, other))
    }

    /// The sine of x.
    pub fn sin(self, kb: &mut BlockKernel) -> (r: BVal)
        ensures
            r.0 == old(kb)@.nodes.len(),
            final(kb)@ == old(kb)@.with_node(BNode::SinF32(self)),
    {
        kb.push(BNode::SinF32(self))
    }

    /// The cosine of x.
    pub fn cos(self, kb: &mut BlockKernel) -> (r: BVal)
        ensures
            r.0 == old(kb)@.nodes.len(),
            final(kb)@ == old(kb)@.with_node(BNode::CosF32(self)),
    {
        kb.push(BNode::CosF32(self))
    }

    /// The unsigned value as a float.
    pub fn to_f32(self, kb: &mut BlockKernel) -> (r: BVal)
        ensures
            r.0 == old(kb)@.nodes.len(),
            final(kb)@ == old(kb)@.with_node(BNode::CvtF32U32(self)),
    {
        kb.push(BNode::CvtF32U32(self))
    }

    /// The float as an unsigned value.
    pub fn to_u32(self, kb: &mut BlockKernel) -> (r: BVal)
        ensures
            r.0 == old(kb)@.nodes.len(),
            final(kb)@ == old(kb)@.with_node(BNode::CvtU32F32(self)),
    {
        kb.push(BNode::CvtU32F32(self))
    }

    /// Shifted right.
    pub fn shr(self, kb: &mut BlockKernel, amount: u8) -> (r: BVal)
        ensures
            r.0 == old(kb)@.nodes.len(),
            final(kb)@ == old(kb)@.with_node(BNode::ShrConstU32(self, amount)),
    {
        kb.push(BNode::ShrConstU32(self, amount))
    }

    /// Shifted left.
    pub fn shl(self, kb: &mut BlockKernel, amount: u8) -> (r: BVal)
        ensures
            r.0 == old(kb)@.nodes.len(),
            final(kb)@ == old(kb)@.with_node(BNode::ShlConstU32(self, amount)),
    {
        kb.push(BNode::ShlConstU32(self, amount))
    }

    /// The bits of a mask.
    pub fn bitand(self, kb: &mut BlockKernel, mask: u32) -> (r: BVal)
        ensures
            r.0 == old(kb)@.nodes.len(),
            final(kb)@ == old(kb)@.with_node(BNode::AndConstU32(self, mask)),
    {
        kb.push(BNode::AndConstU32(self, mask))
    }

    /// With more bits set.
    pub fn bitor(self, kb: &mut BlockKernel, val: u32) -> (r: BVal)
        ensures
            r.0 == old(kb)@.nodes.len(),
            final(kb)@ == old(kb)@.with_node(BNode::OrConstU32(self, val)),
    {
        kb.push(BNode::OrConstU32(self, val))
    }

    /// With bits flipped.
    pub fn bitxor(self, kb: &mut BlockKernel, val: u32) -> (r: BVal)
        ensures
            r.0 == old(kb)@.nodes.len(),
            final(kb)@ == old(kb)@.with_node(BNode::XorConstU32(self, val)),
    {
        kb.push(BNode::XorConstU32(self, val))
    }

    /// `self < other`, float.
    pub fn lt_f32(self, kb: &mut BlockKernel, other: BVal) -> (r: BVal)
        ensures
            r.0 == old(kb)@.nodes.len(),
            final(kb)@ == old(kb)@.with_node(BNode::CmpLtF32(self, other)),
    {
        kb.push(BNode::CmpLtF32(self, other))
    }

    /// `self > other`, float.
    pub fn gt_f32(self, kb: &mut BlockKernel, other: BVal) -> (r: BVal)
        ensures
            r.0 == old(kb)@.nodes.len(),
            final(kb)@ == old(kb)@.with_node(BNode::CmpGtF32(self, other)),
    {
        kb.push(BNode::CmpGtF32(self, other))
    }

    /// `self == other`, float.
    pub fn eq_f32(self, kb: &mut BlockKernel, other: BVal) -> (r: BVal)
        ensures
            r.0 == old(kb)@.nodes.len(),
            final(kb)@ == old(kb)@.with_node(BNode::CmpEqF32(self, other)),
    {
        kb.push(BNode::CmpEqF32(self, other))
    }

    /// One value where the mask is set, the other elsewhere.
    pub fn select(self, kb: &mut BlockKernel, true_val: BVal, false_val: BVal) -> (r: BVal)
        ensures
            r.0 == old(kb)@.nodes.len(),
            final(kb)@ == old(kb)@.with_node(BNode::Select { mask: self, true_val, false_val }),
    {
        kb.push(BNode::Select { mask: self, true_val, false_val })
    }

    /// The bf16 in the lower half as a float.
    pub fn bf16_to_f32(self, kb: &mut BlockKernel) -> (r: BVal)
        ensures
            r.0 == old(kb)@.nodes.len(),
            final(kb)@ == old(kb)@.with_node(BNode::CvtF32BF16(self)),
    {
        kb.push(BNode::CvtF32BF16(self))
    }

    /// `self * b + c`.
    pub fn fma(self, kb: &mut BlockKernel, b: BVal, c: BVal) -> (r: BVal)
        ensures
            r.0 == old(kb)@.nodes.len(),
            final(kb)@ == old(kb)@.with_node(BNode::FmaF32(self, b, c)),
    {
        kb.push(BNode::FmaF32(self, b, c))
    }

    /// The larger value.
    pub fn max(self, kb: &mut BlockKernel, other: BVal) -> (r: BVal)
        ensures
            r.0 == old(kb)@.nodes.len(),
            final(kb)@ == old(kb)@.with_node(BNode::MaxF32(self, other)),
    {
        kb.push(BNode::MaxF32(self, other))
    }

    /// The smaller value.
    pub fn min(self, kb: &mut BlockKernel, other: BVal) -> (r: BVal)
        ensures
            r.0 == old(kb)@.nodes.len(),
            final(kb)@ == old(kb)@.with_node(BNode::MinF32(self, other)),
    {
        kb.push(BNode::MinF32(self, other))
    }

    /// `self * b + acc` on matrix fragments.
    pub fn wmma(self, kb: &mut BlockKernel, b: BVal, acc: BVal) -> (r: BVal)
        ensures
            r.0 == old(kb)@.nodes.len(),
            final(kb)@ == old(kb)@.with_node(BNode::Wmma { a: self, b, c: acc }),
    {
        kb.push(BNode::Wmma { a: self, b, c: acc })
    }

    /// One of eight floats.
    pub fn extract(self, kb: &mut BlockKernel, idx: u32) -> (r: BVal)
        requires
            idx < 8,
        ensures
            r.0 == old(kb)@.nodes.len(),
            final(kb)@ == old(kb)@.with_node(BNode::ExtractF32 { src: self, idx }),
    {
        kb.push(BNode::ExtractF32 { src: self, idx })
    }

    /// The word eight times.
    pub fn splat_fragment(self, kb: &mut BlockKernel) -> (r: BVal)
        ensures
            r.0 == old(kb)@.nodes.len(),
            final(kb)@ == old(kb)@.with_node(BNode::SplatFragment(self)),
    {
        kb.push(BNode::SplatFragment(self))
    }

    /// The natural logarithm, as `log2(x) * ln(2)`.
    pub fn log(self, kb: &mut BlockKernel) -> (r: BVal)
        ensures
            r.0 == old(kb)@.nodes.len() + 2,
            final(kb)@ == old(kb)@.with_node(BNode::Log2F32(self)).with_node(
                BNode::ConstF32(LN_2),
            ).with_node(
                BNode::MulF32(old(kb)@.next(), BVal((old(kb)@.nodes.len() + 1) as usize)),
            ),
    {
        let log2_val = self.log2(kb);
        let ln2 = kb.const_f32(LN_2);
        log2_val.mul(kb, ln2)
    }

    /// e to the power of the value, as two to the power of `x * log2(e)`.
    pub fn exp(self, kb: &mut BlockKernel) -> (r: BVal)
        requires
            old(kb)@.is_number(self),
        ensures
            r.0 == old(kb)@.nodes.len() + 2,
            final(kb)@ == old(kb)@.exp(self),
    {
        let log2e = kb.const_f32(LOG2_E);
        let scaled = self.mul(kb, log2e);
        scaled.exp2(kb)
    }

    /// `1 / (1 + exp(-x))`.
    pub fn sigmoid(self, kb: &mut BlockKernel) -> (r: BVal)
        ensures
            r.0 == old(kb)@.nodes.len() + 6,
            final(kb)@ == old(kb)@.sigmoid(self),
    {
        let neg_x = self.neg(kb);
        let exp_neg = neg_x.exp(kb);
        let one = kb.const_f32(ONE);
        let one_plus = one.add(kb, exp_neg);
        one_plus.rcp(kb)
    }

    /// `2 * sigmoid(2x) - 1`.
    pub fn tanh(self, kb: &mut BlockKernel) -> (r: BVal)
        requires
            old(kb)@.is_number(self),
        ensures
            r.0 == old(kb)@.nodes.len() + 12,
            final(kb)@ == old(kb)@.tanh(self),
    {
        let two = kb.const_f32(TWO);
        let two_x = self.mul(kb, two);
        let sig = two_x.sigmoid(kb);
        let two2 = kb.const_f32(TWO);
        let scaled = sig.mul(kb, two2);
        let one = kb.const_f32(ONE);
        scaled.sub(kb, one)
    }

    /// `x * sigmoid(x)`.
    pub fn silu(self, kb: &mut BlockKernel) -> (r: BVal)
        requires
            old(kb)@.is_number(self),
        ensures
            r.0 == old(kb)@.nodes.len() + 7,
            final(kb)@ == old(kb)@.silu(self),
    {
        let sig = self.sigmoid(kb);
        self.mul(kb, sig)
    }

    /// `0.5x * (1 + tanh(sqrt(2/π) * (x + 0.044715x³)))`.
    pub fn gelu(self, kb: &mut BlockKernel) -> (r: BVal)
        requires
            old(kb)@.is_number(self),
        ensures
            r.0 == old(kb)@.nodes.len() + 24,
            final(kb)@ == old(kb)@.gelu(self),
    {
        let half = kb.const_f32(HALF);
        let one = kb.const_f32(ONE);
        let coeff = kb.const_f32(GELU_CUBE);
        let sqrt_2_pi = kb.const_f32(SQRT_2_OVER_PI);
        let x2 = self.mul(kb, self);
        let x3 = x2.mul(kb, self);
        let cx3 = coeff.mul(kb, x3);
        let x_plus = self.add(kb, cx3);
        let inner = sqrt_2_pi.mul(kb, x_plus);
        let th = inner.tanh(kb);
        let one_plus_th = one.add(kb, th);
        let half_x = half.mul(kb, self);
        half_x.mul(kb, one_plus_th)
    }

    /// `max(x, 0)`.
    pub fn relu(self, kb: &mut BlockKernel) -> (r: BVal)
        ensures
            r.0 == old(kb)@.nodes.len() + 1,
            final(kb)@ == old(kb)@.with_node(BNode::ConstF32(0)).with_node(
                BNode::MaxF32(self, old(kb)@.next()),
            ),
    {
        let zero = kb.const_f32(0);
        kb.push(BNode::MaxF32(self, zero))
    }

    /// `max(min(x, hi), lo)`, the bounds by their bits.
    pub fn clamp(self, kb: &mut BlockKernel, lo: u32, hi: u32) -> (r: BVal)
        ensures
            r.0 == old(kb)@.nodes.len() + 3,
            final(kb)@ == old(kb)@.with_node(BNode::ConstF32(lo)).with_node(
                BNode::ConstF32(hi),
            ).with_node(
                BNode::MinF32(self, BVal((old(kb)@.nodes.len() + 1) as usize)),
            ).with_node(
                BNode::MaxF32(BVal((old(kb)@.nodes.len() + 2) as usize), old(kb)@.next()),
            ),
    {
        let lo_v = kb.const_f32(lo);
        let hi_v = kb.const_f32(hi);
        let min_hi = kb.push(BNode::MinF32(self, hi_v));
        kb.push(BNode::MaxF32(min_hi, lo_v))
    }

    /// The larger of the value and a constant, by its bits.
    pub fn max_const(self, kb: &mut BlockKernel, val: u32) -> (r: BVal)
        ensures
            r.0 == old(kb)@.nodes.len() + 1,
            final(kb)@ == old(kb)@.with_node(BNode::ConstF32(val)).with_node(
                BNode::MaxF32(self, old(kb)@.next()),
            ),
    {
        let c = kb.const_f32(val);
        kb.push(BNode::MaxF32(self, c))
    }

    /// The smaller of the value and a constant, by its bits.
    pub fn min_const(self, kb: &mut BlockKernel, val: u32) -> (r: BVal)
        ensures
            r.0 == old(kb)@.nodes.len() + 1,
            final(kb)@ == old(kb)@.with_node(BNode::ConstF32(val)).with_node(
                BNode::MinF32(self, old(kb)@.next()),
            ),
    {
        let c = kb.const_f32(val);
        kb.push(BNode::MinF32(self, c))
    }

    /// The sum of the products over the lanes of a wave.
    pub fn dot(self, kb: &mut BlockKernel, other: BVal) -> (r: BVal)
        requires
            old(kb)@.is_number(self),
        ensures
            r.0 == old(kb)@.nodes.len() + 1,
            final(kb)@ == old(kb)@.mul(self, other).with_node(
                BNode::WaveReduceAddF32(old(kb)@.next()),
            ),
    {
        let prod = self.mul(kb, other);
        kb.wave_reduce_sum(prod)
    }
}

/// A kernel under construction.
pub struct BlockKernel {
    name: String,
    block_size: u32,
    block_size_x: u32,
    block_size_y: u32,
    nodes: Vec<BNode<String>>,
    stores: Vec<BVal>,
}

impl View for BlockKernel {
    type V = BlockState;

    closed spec fn view(&self) -> BlockState {
        BlockState {
            name: self.name@,
            block_size: self.block_size,
            block_x: self.block_size_x,
            block_y: self.block_size_y,
            nodes: node_texts(self.nodes@),
            stores: self.stores@,
        }
    }
}

impl BlockKernel {
    /// A kernel with nothing in it.
    pub fn new(name: &str, block_size: u32) -> (r: Self)
        requires
            32 <= block_size <= 1024,
        ensures
            r@ == BlockState::empty(name@, block_size),
            r@.wf(),
    {
        let r = BlockKernel {
            name: name.to_string(),
            block_size,
            block_size_x: block_size,
            block_size_y: 1,
            nodes: Vec::new(),
            stores: Vec::new(),
        };
        assert(r@ =~= BlockState::empty(name@, block_size));
        r
    }

    /// The name of the kernel.
    pub fn kernel_name(&self) -> (r: &str)
        ensures
            r@ == self@.name,
    {
        self.name.as_str()
    }

    /// Threads per workgroup.
    pub fn get_block_size(&self) -> (r: u32)
        ensures
            r == self@.block_size,
    {
        self.block_size
    }

    /// Threads along x and along y.
    pub fn get_block_size_2d(&self) -> (r: [u32; 2])
        ensures
            r[0] == self@.block_x,
            r[1] == self@.block_y,
    {
        [self.block_size_x, self.block_size_y]
    }

    /// Puts the binary of this kernel together with what it takes to launch it: the workgroup
    /// and the name are this kernel's, and the arguments those of the kernel that it was lowered
    /// to. `lds_size` is the final size of the local data share, with what was spilled to it.
    pub fn compiled(&self, lowered: &T0Kernel, elf: Vec<u8>, lds_size: u32) -> (r: CompiledKernel)
        ensures
            r.elf == elf,
            r.kernarg_size == lowered@.kernarg_size,
            r.workgroup_size@ == seq![self@.block_x, self@.block_y, 1u32],
            r.lds_size == lds_size,
            r.name@ == self@.name,
            meta_texts(r.args@) == lowered@.args.map_values(|a: KernArgText| meta_of(a)),
    {
        let size: [u32; 3] = [self.block_size_x, self.block_size_y, 1];
        let r = CompiledKernel::new(lowered, self.name.as_str(), elf, size, lds_size);
        assert(r.workgroup_size@ =~= seq![self@.block_x, self@.block_y, 1u32]);
        r
    }

    /// The nodes.
    pub fn get_nodes(&self) -> (r: &[BNode<String>])
        ensures
            node_texts(r@) == self@.nodes,
    {
        self.nodes.as_slice()
    }

    /// What a value is.
    pub fn get_type(&self, v: BVal) -> (r: BType)
        requires
            v.0 < self@.nodes.len(),
        ensures
            r == self@.ty(v),
    {
        self.nodes[v.0].result_type()
    }

    /// Arranges the threads of a workgroup in two dimensions.
    pub fn set_block_size_2d(&mut self, x: u32, y: u32)
        requires
            32 <= x * y <= 1024,
        ensures
            final(self)@ == (BlockState {
                block_size: (x * y) as u32,
                block_x: x,
                block_y: y,
                ..old(self)@
            }),
            final(self)@.wf(),
    {
        let total: u32 = x * y;
        self.block_size = total;
        self.block_size_x = x;
        self.block_size_y = y;
    }

    /// Appends a node.
    pub(crate) fn push(&mut self, node: BNode<String>) -> (r: BVal)
        ensures
            r.0 == old(self)@.nodes.len(),
            final(self)@ == old(self)@.with_node(node@),
    {
        let id: usize = self.nodes.len();
        self.nodes.push(node);
        assert(node_texts(self.nodes@) =~= node_texts(old(self).nodes@).push(node@));
        BVal(id)
    }

    /// Declares a pointer argument.
    pub fn arg_ptr(&mut self, name: &str) -> (r: BVal)
        ensures
            r.0 == old(self)@.nodes.len(),
            final(self)@ == old(self)@.with_node(BNode::ArgPtr(name@)),
    {
        self.push(BNode::ArgPtr(name.to_string()))
    }

    /// Declares an unsigned argument.
    pub fn arg_u32(&mut self, name: &str) -> (r: BVal)
        ensures
            r.0 == old(self)@.nodes.len(),
            final(self)@ == old(self)@.with_node(BNode::ArgU32(name@)),
    {
        self.push(BNode::ArgU32(name.to_string()))
    }

    /// Declares a float argument.
    pub fn arg_f32(&mut self, name: &str) -> (r: BVal)
        ensures
            r.0 == old(self)@.nodes.len(),
            final(self)@ == old(self)@.with_node(BNode::ArgF32(name@)),
    {
        self.push(BNode::ArgF32(name.to_string()))
    }

    /// The number of the workgroup along an axis.
    pub fn program_id(&mut self, axis: u8) -> (r: BVal)
        requires
            axis <= 2,
        ensures
            r.0 == old(self)@.nodes.len(),
            final(self)@ == old(self)@.with_node(BNode::ProgramId(axis)),
    {
        self.push(BNode::ProgramId(axis))
    }

    /// `start`, `start + 1`, … : one per thread of the workgroup.
    pub fn arange(&mut self, start: u32, end: u32) -> (r: BVal)
        requires
            end - start == old(self)@.block_size,
        ensures
            r.0 == old(self)@.nodes.len(),
            final(self)@ == old(self)@.with_node(BNode::Arange { start, end }),
    {
        self.push(BNode::Arange { start, end })
    }

    /// An unsigned constant.
    pub fn const_u32(&mut self, val: u32) -> (r: BVal)
        ensures
            r.0 == old(self)@.nodes.len(),
            final(self)@ == old(self)@.with_node(BNode::ConstU32(val)),
    {
        self.push(BNode::ConstU32(val))
    }

    /// A float constant, by its bits.
    pub fn const_f32(&mut self, val: u32) -> (r: BVal)
        ensures
            r.0 == old(self)@.nodes.len(),
            final(self)@ == old(self)@.with_node(BNode::ConstF32(val)),
    {
        self.push(BNode::ConstF32(val))
    }

    /// Loads floats; lanes outside the mask get zero.
    pub fn load(&mut self, ptr: BVal, offsets: BVal, mask: BVal) -> (r: BVal)
        requires
            old(self)@.typed(ptr, BType::Ptr),
            old(self)@.typed(offsets, BType::U32),
            old(self)@.typed(mask, BType::Mask),
        ensures
            r.0 == old(self)@.nodes.len(),
            final(self)@ == old(self)@.with_node(BNode::Load { ptr, offsets, mask }),
    {
        self.push(BNode::Load { ptr, offsets, mask })
    }

    /// Stores floats in the lanes of the mask.
    pub fn store(&mut self, ptr: BVal, offsets: BVal, val: BVal, mask: BVal)
        requires
            old(self)@.typed(ptr, BType::Ptr),
            old(self)@.typed(offsets, BType::U32),
            old(self)@.typed(val, BType::F32),
            old(self)@.typed(mask, BType::Mask),
        ensures
            final(self)@ == old(self)@.with_store(BNode::Store { ptr, offsets, val, mask }),
    {
        let sv = self.push(BNode::Store { ptr, offsets, val, mask });
        self.stores.push(sv);
    }

    /// Stores words in the lanes of the mask.
    pub fn store_word(&mut self, ptr: BVal, offsets: BVal, val: BVal, mask: BVal)
        requires
            old(self)@.typed(ptr, BType::Ptr),
            old(self)@.typed(offsets, BType::U32),
            old(self)@.typed(val, BType::U32),
            old(self)@.typed(mask, BType::Mask),
        ensures
            final(self)@ == old(self)@.with_store(BNode::Store { ptr, offsets, val, mask }),
    {
        let sv = self.push(BNode::Store { ptr, offsets, val, mask });
        self.stores.push(sv);
    }

    /// Loads words.
    pub fn load_u32(&mut self, ptr: BVal, offsets: BVal, mask: BVal) -> (r: BVal)
        requires
            old(self)@.typed(ptr, BType::Ptr),
            old(self)@.typed(offsets, BType::U32),
            old(self)@.typed(mask, BType::Mask),
        ensures
            r.0 == old(self)@.nodes.len(),
            final(self)@ == old(self)@.with_node(BNode::LoadU32 { ptr, offsets, mask }),
    {
        self.push(BNode::LoadU32 { ptr, offsets, mask })
    }

    /// Adds to floats in memory.
    pub fn atomic_add_f32(&mut self, ptr: BVal, offsets: BVal, val: BVal, mask: BVal)
        requires
            old(self)@.typed(ptr, BType::Ptr),
            old(self)@.typed(offsets, BType::U32),
            old(self)@.typed(val, BType::F32),
            old(self)@.typed(mask, BType::Mask),
        ensures
            final(self)@ == old(self)@.with_store(BNode::AtomicAddF32 { ptr, offsets, val, mask }),
    {
        let sv = self.push(BNode::AtomicAddF32 { ptr, offsets, val, mask });
        self.stores.push(sv);
    }

    /// The sum over the lanes of a wave, of floats.
    pub fn wave_reduce_sum_val(&mut self, val: BVal) -> (r: BVal)
        requires
            old(self)@.typed(val, BType::F32),
        ensures
            r.0 == old(self)@.nodes.len(),
            final(self)@ == old(self)@.with_node(BNode::WaveReduceAddF32(val)),
    {
        self.push(BNode::WaveReduceAddF32(val))
    }

    /// The maximum over the lanes of a wave, of floats.
    pub fn wave_reduce_max_val(&mut self, val: BVal) -> (r: BVal)
        requires
            old(self)@.typed(val, BType::F32),
        ensures
            r.0 == old(self)@.nodes.len(),
            final(self)@ == old(self)@.with_node(BNode::WaveReduceMaxF32(val)),
    {
        self.push(BNode::WaveReduceMaxF32(val))
    }

    /// The number of the thread along x.
    pub fn thread_id(&mut self) -> (r: BVal)
        ensures
            r.0 == old(self)@.nodes.len(),
            final(self)@ == old(self)@.with_node(BNode::ThreadId),
    {
        self.push(BNode::ThreadId)
    }

    /// Loads bf16 values as floats.
    pub fn load_bf16(&mut self, ptr: BVal, offsets: BVal, mask: BVal) -> (r: BVal)
        requires
            old(self)@.typed(ptr, BType::Ptr),
            old(self)@.typed(offsets, BType::U32),
            old(self)@.typed(mask, BType::Mask),
        ensures
            r.0 == old(self)@.nodes.len(),
            final(self)@ == old(self)@.with_node(BNode::LoadBf16 { ptr, offsets, mask }),
    {
        self.push(BNode::LoadBf16 { ptr, offsets, mask })
    }

    /// Stores the upper halves of floats.
    pub fn store_bf16(&mut self, ptr: BVal, offsets: BVal, val: BVal, mask: BVal)
        requires
            old(self)@.typed(ptr, BType::Ptr),
            old(self)@.typed(offsets, BType::U32),
            old(self)@.typed(val, BType::F32),
            old(self)@.typed(mask, BType::Mask),
        ensures
            final(self)@ == old(self)@.with_store(BNode::StoreBf16 { ptr, offsets, val, mask }),
    {
        let sv = self.push(BNode::StoreBf16 { ptr, offsets, val, mask });
        self.stores.push(sv);
    }

    /// The sum over the lanes of a wave.
    pub fn wave_reduce_sum(&mut self, val: BVal) -> (r: BVal)
        ensures
            r.0 == old(self)@.nodes.len(),
            final(self)@ == old(self)@.with_node(BNode::WaveReduceAddF32(val)),
    {
        self.push(BNode::WaveReduceAddF32(val))
    }

    /// The maximum over the lanes of a wave.
    pub fn wave_reduce_max(&mut self, val: BVal) -> (r: BVal)
        ensures
            r.0 == old(self)@.nodes.len(),
            final(self)@ == old(self)@.with_node(BNode::WaveReduceMaxF32(val)),
    {
        self.push(BNode::WaveReduceMaxF32(val))
    }

    /// Space in the local data share, apart from any other.
    pub fn lds_alloc(&mut self, size_bytes: u32) -> (r: BVal)
        ensures
            r.0 == old(self)@.nodes.len(),
            final(self)@ == old(self)@.with_node(BNode::LdsAlloc { size_bytes }),
    {
        self.push(BNode::LdsAlloc { size_bytes })
    }

    /// Loads a float from `base + 4 * offset`.
    pub fn lds_load(&mut self, base: BVal, offset: BVal) -> (r: BVal)
        requires
            old(self)@.typed(base, BType::LdsPtr),
            old(self)@.typed(offset, BType::U32),
        ensures
            r.0 == old(self)@.nodes.len(),
            final(self)@ == old(self)@.with_node(BNode::LdsLoad { base, offset }),
    {
        self.push(BNode::LdsLoad { base, offset })
    }

    /// Stores a float at `base + 4 * offset`.
    pub fn lds_store(&mut self, base: BVal, offset: BVal, val: BVal)
        requires
            old(self)@.typed(base, BType::LdsPtr),
            old(self)@.typed(offset, BType::U32),
            old(self)@.typed(val, BType::F32),
        ensures
            final(self)@ == old(self)@.with_node(BNode::LdsStore { base, offset, val }),
    {
        let _ = self.push(BNode::LdsStore { base, offset, val });
    }

    /// Waits for the other waves of the workgroup.
    pub fn barrier(&mut self)
        ensures
            final(self)@ == old(self)@.with_node(BNode::Barrier),
    {
        let _ = self.push(BNode::Barrier);
    }

    /// Lets only the lanes of the mask go on.
    pub fn if_mask(&mut self, mask: BVal)
        ensures
            final(self)@ == old(self)@.with_node(BNode::IfMask(mask)),
    {
        let _ = self.push(BNode::IfMask(mask));
    }

    /// Lets the other lanes go on.
    pub fn else_mask(&mut self)
        ensures
            final(self)@ == old(self)@.with_node(BNode::ElseMask),
    {
        let _ = self.push(BNode::ElseMask);
    }

    /// Lets all lanes go on again.
    pub fn end_if(&mut self)
        ensures
            final(self)@ == old(self)@.with_node(BNode::EndIf),
    {
        let _ = self.push(BNode::EndIf);
    }

    /// Begins a loop and gives its counter.
    pub fn for_range(&mut self, start: BVal, end: BVal, step: u32) -> (r: BVal)
        requires
            step > 0,
        ensures
            r.0 == old(self)@.nodes.len(),
            final(self)@ == old(self)@.with_node(BNode::ForBegin { start, end, step }),
    {
        self.push(BNode::ForBegin { start, end, step })
    }

    /// Eight zero floats.
    pub fn zero_acc(&mut self) -> (r: BVal)
        ensures
            r.0 == old(self)@.nodes.len(),
            final(self)@ == old(self)@.with_node(BNode::ZeroAcc),
    {
        self.push(BNode::ZeroAcc)
    }

    /// Two floats packed as bf16.
    pub fn cvt_pk_bf16(&mut self, lo: BVal, hi: BVal) -> (r: BVal)
        ensures
            r.0 == old(self)@.nodes.len(),
            final(self)@ == old(self)@.with_node(BNode::CvtPkBf16F32 { lo, hi }),
    {
        self.push(BNode::CvtPkBf16F32 { lo, hi })
    }

    /// The sum over the workgroup.
    pub fn wg_reduce_sum(&mut self, val: BVal) -> (r: BVal)
        requires
            old(self)@.typed(val, BType::F32),
        ensures
            r.0 == old(self)@.nodes.len(),
            final(self)@ == old(self)@.with_node(BNode::WgReduceAddF32(val)),
    {
        self.push(BNode::WgReduceAddF32(val))
    }

    /// The maximum over the workgroup.
    pub fn wg_reduce_max(&mut self, val: BVal) -> (r: BVal)
        requires
            old(self)@.typed(val, BType::F32),
        ensures
            r.0 == old(self)@.nodes.len(),
            final(self)@ == old(self)@.with_node(BNode::WgReduceMaxF32(val)),
    {
        self.push(BNode::WgReduceMaxF32(val))
    }

    /// The minimum over the workgroup.
    pub fn wg_reduce_min(&mut self, val: BVal) -> (r: BVal)
        requires
            old(self)@.typed(val, BType::F32),
        ensures
            r.0 == old(self)@.nodes.len(),
            final(self)@ == old(self)@.with_node(BNode::WgReduceMinF32(val)),
    {
        self.push(BNode::WgReduceMinF32(val))
    }

    /// A whole matrix multiplication; takes over the kernel.
    pub fn tile_gemm(
        &mut self,
        a_ptr: BVal,
        b_ptr: BVal,
        y_ptr: BVal,
        k_dim: BVal,
        n_dim: BVal,
        config: TileGemmConfig,
    )
        requires
            old(self)@.typed(a_ptr, BType::Ptr),
            old(self)@.typed(b_ptr, BType::Ptr),
            old(self)@.typed(y_ptr, BType::Ptr),
            old(self)@.typed(k_dim, BType::U32),
            old(self)@.typed(n_dim, BType::U32),
        ensures
            final(self)@ == old(self)@.with_store(
                BNode::TileGemm { a_ptr, b_ptr, y_ptr, k_dim, n_dim, config },
            ),
    {
        let sv = self.push(BNode::TileGemm { a_ptr, b_ptr, y_ptr, k_dim, n_dim, config });
        self.stores.push(sv);
    }

    /// Like `load`, with the lanes whose offset is below `n`.
    pub fn load_checked(&mut self, ptr: BVal, offsets: BVal, n: BVal) -> (r: BVal)
        requires
            old(self)@.typed(ptr, BType::Ptr),
            old(self)@.typed(offsets, BType::U32),
        ensures
            r.0 == old(self)@.nodes.len() + 1,
            final(self)@ == old(self)@.with_node(BNode::LtU32(offsets, n)).with_node(
                BNode::Load { ptr, offsets, mask: old(self)@.next() },
            ),
    {
        let mask = offsets.lt(self, n);
        self.load(ptr, offsets, mask)
    }

    /// Like `load_u32`, with the lanes whose offset is below `n`.
    pub fn load_u32_checked(&mut self, ptr: BVal, offsets: BVal, n: BVal) -> (r: BVal)
        requires
            old(self)@.typed(ptr, BType::Ptr),
            old(self)@.typed(offsets, BType::U32),
        ensures
            r.0 == old(self)@.nodes.len() + 1,
            final(self)@ == old(self)@.with_node(BNode::LtU32(offsets, n)).with_node(
                BNode::LoadU32 { ptr, offsets, mask: old(self)@.next() },
            ),
    {
        let mask = offsets.lt(self, n);
        self.load_u32(ptr, offsets, mask)
    }

    /// Like `load_bf16`, with the lanes whose offset is below `n`.
    pub fn load_bf16_checked(&mut self, ptr: BVal, offsets: BVal, n: BVal) -> (r: BVal)
        requires
            old(self)@.typed(ptr, BType::Ptr),
            old(self)@.typed(offsets, BType::U32),
        ensures
            r.0 == old(self)@.nodes.len() + 1,
            final(self)@ == old(self)@.with_node(BNode::LtU32(offsets, n)).with_node(
                BNode::LoadBf16 { ptr, offsets, mask: old(self)@.next() },
            ),
    {
        let mask = offsets.lt(self, n);
        self.load_bf16(ptr, offsets, mask)
    }

    /// Like `store`, with the lanes whose offset is below `n`.
    pub fn store_checked(&mut self, ptr: BVal, offsets: BVal, val: BVal, n: BVal)
        requires
            old(self)@.typed(ptr, BType::Ptr),
            old(self)@.typed(offsets, BType::U32),
            old(self)@.typed(val, BType::F32),
        ensures
            final(self)@ == old(self)@.with_node(BNode::LtU32(offsets, n)).with_store(
                BNode::Store { ptr, offsets, val, mask: old(self)@.next() },
            ),
    {
        let mask = offsets.lt(self, n);
        self.store(ptr, offsets, val, mask);
    }

    /// Like `atomic_add_f32`, with the lanes whose offset is below `n`.
    pub fn atomic_add_f32_checked(&mut self, ptr: BVal, offsets: BVal, val: BVal, n: BVal)
        requires
            old(self)@.typed(ptr, BType::Ptr),
            old(self)@.typed(offsets, BType::U32),
            old(self)@.typed(val, BType::F32),
        ensures
            final(self)@ == old(self)@.with_node(BNode::LtU32(offsets, n)).with_store(
                BNode::AtomicAddF32 { ptr, offsets, val, mask: old(self)@.next() },
            ),
    {
        let mask = offsets.lt(self, n);
        self.atomic_add_f32(ptr, offsets, val, mask);
    }

    /// Like `store_bf16`, with the lanes whose offset is below `n`.
    pub fn store_bf16_checked(&mut self, ptr: BVal, offsets: BVal, val: BVal, n: BVal)
        requires
            old(self)@.typed(ptr, BType::Ptr),
            old(self)@.typed(offsets, BType::U32),
            old(self)@.typed(val, BType::F32),
        ensures
            final(self)@ == old(self)@.with_node(BNode::LtU32(offsets, n)).with_store(
                BNode::StoreBf16 { ptr, offsets, val, mask: old(self)@.next() },
            ),
    {
        let mask = offsets.lt(self, n);
        self.store_bf16(ptr, offsets, val, mask);
    }

    /// The number of the thread along y.
    pub fn thread_id_y(&mut self) -> (r: BVal)
        requires
            old(self)@.block_y > 1,
        ensures
            r.0 == old(self)@.nodes.len(),
            final(self)@ == old(self)@.with_node(BNode::ThreadIdY { block_x: old(self)@.block_x }),
    {
        let block_x: u32 = self.block_size_x;
        self.push(BNode::ThreadIdY { block_x })
    }

    /// Ends a loop.
    pub fn end_for(&mut self, iter_var: BVal)
        requires
            iter_var.0 < old(self)@.nodes.len(),
            old(self)@.nodes[iter_var.0 as int] is ForBegin,
        ensures
            final(self)@ == old(self)@.with_node(BNode::ForEnd { begin_node: iter_var.0 }),
    {
        let _ = self.push(BNode::ForEnd { begin_node: iter_var.0 });
    }

    /// Begins a loop that carries a value; gives its counter and the carried value.
    pub fn for_range_acc(&mut self, start: BVal, end: BVal, step: u32, init_acc: BVal) -> (r: (
        BVal,
        BVal,
    ))
        requires
            step > 0,
        ensures
            r.0.0 == old(self)@.nodes.len(),
            r.1.0 == old(self)@.nodes.len() + 1,
            final(self)@ == old(self)@.with_node(
                BNode::ForAccBegin { start, end, step, init_acc },
            ).with_node(BNode::ForAccPhi { begin_node: r.0.0 }),
    {
        let iter_var = self.push(BNode::ForAccBegin { start, end, step, init_acc });
        let acc_var = self.push(BNode::ForAccPhi { begin_node: iter_var.0 });
        (iter_var, acc_var)
    }

    /// Ends a loop that carries a value, and gives what it carries in the end.
    pub fn end_for_acc(&mut self, iter_var: BVal, new_acc: BVal) -> (r: BVal)
        requires
            iter_var.0 < old(self)@.nodes.len(),
            old(self)@.nodes[iter_var.0 as int] is ForAccBegin,
        ensures
            r.0 == old(self)@.nodes.len() + 1,
            final(self)@ == old(self)@.with_node(
                BNode::ForAccEnd { begin_node: iter_var.0, new_acc },
            ).with_node(BNode::ForAccResult { begin_node: iter_var.0 }),
    {
        let _ = self.push(BNode::ForAccEnd { begin_node: iter_var.0, new_acc });
        self.push(BNode::ForAccResult { begin_node: iter_var.0 })
    }

    /// A few lines about the kernel: how many arguments, nodes and stores it has.
    pub fn summary(&self) -> (r: String)
        ensures
            r@ == summary_text(self@),
    {
        let mut args: usize = 0;
        let mut i: usize = 0;
        assert(node_texts(self.nodes@).take(0) =~= Seq::empty());
        while i < self.nodes.len()
            invariant
                i <= self.nodes.len(),
                args <= i,
                args == count_args(node_texts(self.nodes@).take(i as int)),
            decreases self.nodes.len() - i,
        {
            let ghost all = node_texts(self.nodes@);
            assert(all.take(i + 1).drop_last() =~= all.take(i as int));
            assert(all[i as int] == self.nodes@[i as int]@);
            match self.nodes[i] {
                BNode::ArgPtr(_) | BNode::ArgU32(_) | BNode::ArgF32(_) => {
                    args = args + 1;
                },
                _ => {},
            }
            i = i + 1;
        }
        assert(node_texts(self.nodes@).take(i as int) =~= node_texts(self.nodes@));
        let mut s = String::new();
        s.append("BlockKernel '");
        s.append(self.name.as_str());
        s.append("' (BLOCK_SIZE=");
        push_dec(&mut s, self.block_size as u64);
        s.append(")\n  args: ");
        push_dec(&mut s, args as u64);
        s.append("\n  nodes: ");
        push_dec(&mut s, self.nodes.len() as u64);
        s.append("\n  stores: ");
        push_dec(&mut s, self.stores.len() as u64);
        s.append("\n");
        assert(s@ =~= summary_text(self@));
        s
    }
}

/// How many nodes are arguments.
pub open spec fn count_args(nodes: Seq<BNode<Seq<char>>>) -> nat
    decreases nodes.len(),
{
    if nodes.len() == 0 {
        0
    } else {
        count_args(nodes.drop_last()) + match nodes.last() {
            BNode::ArgPtr(_) | BNode::ArgU32(_) | BNode::ArgF32(_) => 1nat,
            _ => 0,
        }
    }
}

/// A few lines about a kernel.
pub open spec fn summary_text(k: BlockState) -> Seq<char> {
    "BlockKernel '"@ + k.name + "' (BLOCK_SIZE="@ + dec(k.block_size as nat) + ")\n  args: "@
        + dec(count_args(k.nodes)) + "\n  nodes: "@ + dec(k.nodes.len()) + "\n  stores: "@ + dec(
        k.stores.len(),
    ) + "\n"@
}

} // verus!
