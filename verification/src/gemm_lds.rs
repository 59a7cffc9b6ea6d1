//! The double-buffered matrix multiplication kernel, step by step.
//!
//! Each step is a function that appends operations to a kernel, next to a spec function that
//! says what the kernel is afterwards. Both inputs pass through the local data share, which
//! holds two buffers: while one is multiplied, the other is filled.
use vstd::arithmetic::power2::{lemma2_to64, lemma_pow2_strictly_increases, lemma_pow2_unfold, pow2};
use vstd::prelude::*;

use crate::compile::{
    KernelState, T0Kernel, arg_load_ops, count_ops, label_name, lemma_mask_free_counts,
    lemma_mask_free_loads, mask_free, packed_arguments_are_aligned, validation_error,
};
use crate::gemm_gen::{EpilogueOp, GemmConfig, config_name};
use crate::ir::{
    Alignment, ArgKind, KernArgText, OpOf, OpText, Operand, SOperand, SReg, SRegPair, VReg,
    VRegAlloc, Width, WmmaFormat,
};
use crate::settled::{
    arg_settled, extends, kernel_settled, lemma_extends_push, lemma_extends_self,
    lemma_extends_trans, lemma_run_at, lemma_runs_extend, lemma_runs_none, lemma_runs_push,
    lemma_s_grouped_last, lemma_s_grouped_push, lemma_settled_loads, lemma_settled_push,
    lemma_settled_sregs, lemma_settled_vregs, lemma_tight_push, lemma_v_grouped_extends,
    lemma_v_grouped_last, lemma_v_grouped_part, lemma_v_grouped_push, runs, settled, tight,
    v_grouped,
};

verus! {

broadcast use {
    crate::compile::lemma_mask_free_push,
    lemma_extends_push,
    lemma_extends_self,
    lemma_extends_trans,
    lemma_s_grouped_last,
    lemma_s_grouped_push,
    lemma_settled_push,
    lemma_settled_sregs,
    lemma_settled_vregs,
    lemma_tight_push,
    lemma_v_grouped_last,
    lemma_v_grouped_push,
};

/// No register number of a generated kernel is larger.
pub const REG_LIMIT: u32 = 60_000;

/// No place behind such a register is larger.
pub const REG_MAX: u32 = 70_000;

/// No scalar register number of a generated kernel is larger.
pub const SREG_LIMIT: u32 = 39;

/// No place behind such a scalar register is larger.
pub const SREG_MAX: u32 = 40;

/// Whether a kernel has room for more registers.
pub open spec fn ready(s: KernelState, vregs: nat, sregs: nat) -> bool {
    &&& s.wf()
    &&& s.next_vreg + vregs <= REG_LIMIT
    &&& s.next_sreg + sregs <= SREG_LIMIT
}

/// Whether a kernel took no more than so many registers, no label, nothing that changes
/// which lanes take part, and nothing that cannot be written down.
pub open spec fn sized(a: KernelState, b: KernelState, vregs: nat, sregs: nat) -> bool {
    &&& b.wf()
    &&& mask_free(a.ops) ==> mask_free(b.ops)
    &&& kernel_settled(a) ==> kernel_settled(b)
    &&& extends(a.vreg_allocs, b.vreg_allocs)
    &&& vregs == 0 ==> b.vreg_allocs == a.vreg_allocs
    &&& a.next_vreg <= b.next_vreg <= a.next_vreg + vregs
    &&& a.next_sreg <= b.next_sreg <= a.next_sreg + sregs
    &&& b.label_counter == a.label_counter
}

/// Whether a kernel grew like that and kept its arguments.
pub open spec fn grown(a: KernelState, b: KernelState, vregs: nat, sregs: nat) -> bool {
    &&& sized(a, b, vregs, sregs)
    &&& b.args == a.args
    &&& b.kernarg_size == a.kernarg_size
}

/// An argument at its place.
pub open spec fn placed_arg(name: Seq<char>, kind: ArgKind, offset: u32, sreg: u32) -> KernArgText {
    KernArgText { name, kind, offset, sreg: SReg(sreg) }
}

/// The arguments of a matrix multiplication kernel.
pub open spec fn gemm_arg_list(bias: bool) -> Seq<KernArgText> {
    let common = seq![
        placed_arg("X"@, ArgKind::Ptr, 0, 0),
        placed_arg("WT"@, ArgKind::Ptr, 8, 2),
        placed_arg("Y"@, ArgKind::Ptr, 16, 4),
        placed_arg("K"@, ArgKind::U32, 24, 6),
        placed_arg("N"@, ArgKind::U32, 28, 7),
        placed_arg("split_k_shift"@, ArgKind::U32, 32, 8),
        placed_arg("y_split_stride"@, ArgKind::U32, 36, 9),
    ];
    if bias {
        common.push(placed_arg("bias"@, ArgKind::Ptr, 40, 10))
    } else {
        common
    }
}

/// Whether a kernel without arguments or scalar registers got those arguments.
pub open spec fn declared(a: KernelState, b: KernelState, bias: bool) -> bool {
    a.args.len() == 0 && a.next_sreg == 0 ==> {
        &&& b.args == gemm_arg_list(bias)
        &&& b.kernarg_size == if bias {
            48nat
        } else {
            40
        }
    }
}

/// The register `i` places behind another.
pub open spec fn v_plus(v: VReg, i: u32) -> VReg {
    VReg((v.0 + i) as u32)
}

/// The register `i` places behind another.
#[verifier::when_used_as_spec(v_plus)]
pub fn v_at(v: VReg, i: u32) -> (r: VReg)
    requires
        v.0 + i <= u32::MAX,
    ensures
        r == v_plus(v, i),
{
    VReg(v.0 + i)
}

/// The scalar register `i` places behind another.
pub open spec fn s_plus(v: SReg, i: u32) -> SReg {
    SReg((v.0 + i) as u32)
}

/// The scalar register `i` places behind another.
#[verifier::when_used_as_spec(s_plus)]
pub fn s_at(v: SReg, i: u32) -> (r: SReg)
    requires
        v.0 + i <= u32::MAX,
    ensures
        r == s_plus(v, i),
{
    SReg(v.0 + i)
}

/// The first of the registers handed out in `n` turns.
pub open spec fn first_vreg(s: KernelState, n: u32) -> VReg {
    if n == 0 {
        VReg(0)
    } else {
        VReg(s.next_vreg as u32)
    }
}

/// The first of the scalar registers handed out in `n` turns.
pub open spec fn first_sreg(s: KernelState, n: u32) -> SReg {
    if n == 0 {
        SReg(0)
    } else {
        SReg(s.next_sreg as u32)
    }
}

// ── The plan ──
/// How often a number can be halved down to one: its logarithm, where it is a power of two.
pub open spec fn shift_of(x: nat) -> Option<u8>
    decreases x,
{
    if x == 1 {
        Some(0)
    } else if x > 1 && x % 2 == 0 {
        match shift_of(x / 2) {
            Some(s) => Some((s + 1) as u8),
            None => None,
        }
    } else {
        None
    }
}

/// A shift multiplies by the number that it was found for.
pub proof fn shift_multiplies(x: nat)
    requires
        x <= u32::MAX,
    ensures
        shift_of(x) matches Some(s) ==> s < 32 && pow2(s as nat) == x,
    decreases x,
{
    lemma2_to64();
    if x > 1 && x % 2 == 0 {
        shift_multiplies(x / 2);
        match shift_of(x / 2) {
            Some(s) => {
                lemma_pow2_unfold((s + 1) as nat);
                if s >= 31 {
                    assert(pow2(32) == 0x1_0000_0000);
                    if s + 1 > 32 {
                        lemma_pow2_strictly_increases(32, (s + 1) as nat);
                    }
                }
            },
            None => {},
        }
    }
}

/// How often a number can be halved down to one.
fn exact_shift(x: u32) -> (r: Option<u8>)
    ensures
        r == shift_of(x as nat),
    decreases x,
{
    if x == 1 {
        Some(0)
    } else if x > 1 && x % 2 == 0 {
        proof {
            shift_multiplies((x / 2) as nat);
        }
        match exact_shift(x / 2) {
            Some(s) => Some(s + 1),
            None => None,
        }
    } else {
        None
    }
}

/// The numbers that the steps need, from a configuration.
#[derive(Clone, Copy)]
pub struct Plan {
    /// Row blocks per wave.
    pub nrb: u32,
    /// Column tiles.
    pub nct: u32,
    /// Matrix instructions along K per turn.
    pub sub_steps: u32,
    /// Bytes per row in the local data share.
    pub row_stride: u32,
    /// The shift that multiplies by that.
    pub row_shift: Option<u8>,
    /// Bytes of the left input in a buffer.
    pub lds_x: u32,
    /// Bytes of a buffer.
    pub lds_buf: u32,
    /// Loads of the left input per thread.
    pub x_loads: u32,
    /// Loads of the right input per thread.
    pub wt_loads: u32,
    pub tile_m_shift: u8,
    pub tile_n_shift: u8,
    pub rpw_shift: u8,
    /// Sixteen-byte pieces per row.
    pub chunks: u32,
    pub chunk_shift: u8,
    pub rows_per_wave: u32,
    /// Rows that the workgroup loads at once.
    pub rows_per_pass: u32,
    pub split_k: u32,
    pub split_shift: u8,
    pub tile_k: u32,
    pub swap_grid: bool,
    pub bias: bool,
    pub relu: bool,
}

impl Plan {
    /// Whether the numbers are those of a kernel that can be built.
    pub open spec fn ok(self) -> bool {
        &&& 1 <= self.nrb <= 4
        &&& 2 <= self.nct <= 8
        &&& self.sub_steps <= 4
        &&& self.row_stride <= 4096
        &&& self.sub_steps * 32 <= self.row_stride
        &&& self.lds_x + self.nct * 16 * self.row_stride <= 65536
        &&& self.lds_buf <= 65536
        &&& self.x_loads <= 64
        &&& self.wt_loads <= 64
        &&& 2 <= self.chunks <= 8
        &&& self.rows_per_wave <= 64
        &&& self.rows_per_pass <= 200
        &&& 1 <= self.split_k <= 16
        &&& self.tile_k <= 64
    }
}

/// The logarithm of a small power of two.
pub open spec fn log_of(x: nat) -> u8 {
    match shift_of(x) {
        Some(s) => s,
        None => 0,
    }
}

/// The numbers that the steps need.
pub open spec fn plan_of(c: GemmConfig) -> Plan {
    Plan {
        nrb: c.row_blocks() as u32,
        nct: c.col_tiles() as u32,
        sub_steps: c.sub_steps() as u32,
        row_stride: c.row_bytes() as u32,
        row_shift: shift_of(c.row_bytes()),
        lds_x: (c.tile_m * c.row_bytes()) as u32,
        lds_buf: (c.tile_m * c.row_bytes() + c.tile_n * c.row_bytes()) as u32,
        x_loads: (c.x_bytes() / c.wg_size as nat / 16) as u32,
        wt_loads: (c.wt_bytes() / c.wg_size as nat / 16) as u32,
        tile_m_shift: log_of(c.tile_m as nat),
        tile_n_shift: log_of(c.tile_n as nat),
        rpw_shift: log_of(c.wave_rows()),
        chunks: (c.tile_k / 8) as u32,
        chunk_shift: log_of((c.tile_k / 8) as nat),
        rows_per_wave: c.wave_rows() as u32,
        rows_per_pass: (c.wg_size as nat / (c.tile_k as nat / 8)) as u32,
        split_k: c.splits(),
        split_shift: log_of(c.splits() as nat),
        tile_k: c.tile_k,
        swap_grid: c.swap_grid,
        bias: c.epilogue != EpilogueOp::StoreF32,
        relu: c.epilogue == EpilogueOp::BiasAddReluStoreF32,
    }
}

/// Whether K can be split into that many parts.
pub open spec fn supported_split(n: u32) -> bool {
    n == 1 || n == 2 || n == 4 || n == 8 || n == 16
}

/// Whether a configuration has a kernel: its sizes are among those that shifts can compute,
/// its registers suffice by estimate, and its two buffers fit the 128 KB that a workgroup
/// can have.
pub open spec fn generable(c: GemmConfig) -> bool {
    &&& c.tile_m == 16 || c.tile_m == 32 || c.tile_m == 64 || c.tile_m == 128
    &&& c.tile_n == 32 || c.tile_n == 64 || c.tile_n == 128
    &&& c.tile_k == 16 || c.tile_k == 32 || c.tile_k == 64
    &&& c.wg_size >= 32
    &&& c.wave_rows() == 16 || c.wave_rows() == 32 || c.wave_rows() == 64
    &&& supported_split(c.splits())
    &&& c.vgprs() <= 256
    &&& c.tile_m * c.row_bytes() + c.tile_n * c.row_bytes() <= 65536
}

/// The shift for a tile size.
fn small_log(x: u32) -> (r: u8)
    ensures
        r == log_of(x as nat),
{
    match exact_shift(x) {
        Some(s) => s,
        None => 0,
    }
}

/// Bounds on the numbers of a configuration that has a kernel.
pub proof fn lemma_plan_bounds(c: GemmConfig)
    requires
        generable(c),
    ensures
        plan_of(c).ok(),
        c.countable(),
        c.row_bytes() <= 4096,
        c.tile_m * c.row_bytes() <= 65536,
        c.tile_n * c.row_bytes() <= 65536,
        1 <= c.waves() <= 8,
        c.x_bytes() / c.wg_size as nat / 16 <= 64,
        c.wt_bytes() / c.wg_size as nat / 16 <= 64,
        c.wg_size as nat / (c.tile_k as nat / 8) <= 200,
{
    let rb = c.row_bytes();
    assert(c.tile_m * rb >= 16 * rb) by (nonlinear_arith)
        requires
            c.tile_m >= 16,
            rb >= 0,
    ;
    assert(c.tile_n * rb >= 16 * rb) by (nonlinear_arith)
        requires
            c.tile_n >= 16,
            rb >= 0,
    ;
    let w = c.waves();
    assert(w <= 8) by {
        if w > 8 {
            assert(c.tile_m as nat / w < 16) by (nonlinear_arith)
                requires
                    c.tile_m <= 128,
                    w > 8,
            ;
        }
    }
    assert(c.tile_m as nat * c.tile_k as nat <= 128 * 64) by (nonlinear_arith)
        requires
            c.tile_m <= 128,
            c.tile_k <= 64,
    ;
    assert(c.tile_n as nat * c.tile_k as nat <= 128 * 64) by (nonlinear_arith)
        requires
            c.tile_n <= 128,
            c.tile_k <= 64,
    ;
    assert(0 <= c.row_blocks() * c.col_tiles()) by (nonlinear_arith);
    let chunks = c.tile_k as nat / 8;
    assert(c.wg_size as nat / chunks <= 200) by (nonlinear_arith)
        requires
            c.wg_size < 288,
            chunks >= 2,
    ;
    assert(c.col_tiles() * 16 == c.tile_n);
    assert(c.col_tiles() * 16 * rb == c.tile_n * rb);
    assert(plan_of(c).nct * 16 * plan_of(c).row_stride == c.tile_n * rb) by (nonlinear_arith)
        requires
            plan_of(c).nct * 16 == c.tile_n,
            plan_of(c).row_stride == rb,
    ;
}

/// The numbers that the steps need.
fn make_plan(cfg: &GemmConfig) -> (r: Plan)
    requires
        generable(*cfg),
    ensures
        r == plan_of(*cfg),
        r.ok(),
{
    proof {
        lemma_plan_bounds(*cfg);
    }
    let row_stride: u32 = cfg.lds_x_row_stride();
    let lds_x: u32 = cfg.lds_x_size();
    let lds_wt: u32 = cfg.lds_wt_size();
    let chunks: u32 = cfg.tile_k * 2 / 16;
    let rows_per_wave: u32 = cfg.rows_per_wave();
    let split_k: u32 = match cfg.split_k {
        Some(n) => n,
        None => 1,
    };
    let (bias, relu) = match cfg.epilogue {
        EpilogueOp::StoreF32 => (false, false),
        EpilogueOp::BiasAddStoreF32 => (true, false),
        EpilogueOp::BiasAddReluStoreF32 => (true, true),
    };
    Plan {
        nrb: cfg.n_row_blocks() as u32,
        nct: cfg.n_col_tiles() as u32,
        sub_steps: cfg.k_sub_steps(),
        row_stride,
        row_shift: exact_shift(row_stride),
        lds_x,
        lds_buf: lds_x + lds_wt,
        x_loads: cfg.x_bytes_per_thread() / 16,
        wt_loads: cfg.wt_bytes_per_thread() / 16,
        tile_m_shift: small_log(cfg.tile_m),
        tile_n_shift: small_log(cfg.tile_n),
        rpw_shift: small_log(rows_per_wave),
        chunks,
        chunk_shift: small_log(chunks),
        rows_per_wave,
        rows_per_pass: cfg.wg_size / chunks,
        split_k,
        split_shift: small_log(split_k),
        tile_k: cfg.tile_k,
        swap_grid: cfg.swap_grid,
        bias,
        relu,
    }
}

// ── Bounds on products ──
/// The offset of a row block is small.
proof fn lemma_block_offset(i: u32, stride: u32)
    requires
        i < 4,
        stride <= 4096,
    ensures
        0 <= i * 16 * stride <= 262144,
{
    assert(0 <= i * 16 * stride <= 262144) by (nonlinear_arith)
        requires
            i < 4,
            stride <= 4096,
    ;
}

/// The offset of a wave is small.
proof fn lemma_wave_stride(p: Plan)
    requires
        p.ok(),
    ensures
        0 <= p.rows_per_wave * p.row_stride <= 262144,
{
    assert(0 <= p.rows_per_wave * p.row_stride <= 262144) by (nonlinear_arith)
        requires
            p.rows_per_wave <= 64,
            p.row_stride <= 4096,
    ;
}

/// The offset of a pass is small.
proof fn lemma_pass_step(p: Plan)
    requires
        p.ok(),
    ensures
        0 <= p.rows_per_pass * p.row_stride <= 819200,
{
    assert(0 <= p.rows_per_pass * p.row_stride <= 819200) by (nonlinear_arith)
        requires
            p.rows_per_pass <= 200,
            p.row_stride <= 4096,
    ;
}

/// The offset of a fragment of the right input fits an instruction.
pub proof fn lemma_wt_offset(p: Plan, i: u32, step: u32)
    requires
        p.ok(),
        i < p.nct,
        step < p.sub_steps,
    ensures
        0 <= i * 16 * p.row_stride,
        0 <= p.lds_x + i * 16 * p.row_stride + step * 32 + 32 <= 65536,
{
    assert(0 <= i * 16 * p.row_stride) by (nonlinear_arith);
    assert(i * 16 * p.row_stride + 16 * p.row_stride <= p.nct * 16 * p.row_stride)
        by (nonlinear_arith)
        requires
            i + 1 <= p.nct,
    ;
}

/// The place of a sum among all of them.
pub proof fn lemma_acc_index(p: Plan, row: u32, i: u32)
    requires
        p.ok(),
        row < p.nrb,
        i < p.nct,
    ensures
        0 <= row * p.nct,
        0 <= (row * p.nct + i) * 8 <= 248,
{
    assert(0 <= row * p.nct <= 24) by (nonlinear_arith)
        requires
            row <= 3,
            p.nct <= 8,
    ;
}

/// There are at most 32 groups of sums.
proof fn lemma_acc_count(p: Plan)
    requires
        p.ok(),
    ensures
        1 <= p.nrb * p.nct <= 32,
{
    assert(1 <= p.nrb * p.nct <= 32) by (nonlinear_arith)
        requires
            1 <= p.nrb <= 4,
            1 <= p.nct <= 8,
    ;
}

// ── Registers ──
/// The registers that hold the arguments.
#[derive(Clone, Copy)]
pub struct GemmArgs {
    pub x_ptr: SRegPair,
    pub wt_ptr: SRegPair,
    pub y_ptr: SRegPair,
    pub k_dim: SReg,
    pub n_dim: SReg,
    pub y_split_stride: SReg,
    pub bias: Option<SRegPair>,
}

impl GemmArgs {
    /// Whether the register numbers are small.
    pub open spec fn ok(self) -> bool {
        &&& self.x_ptr.0 <= SREG_LIMIT
        &&& self.wt_ptr.0 <= SREG_LIMIT
        &&& self.y_ptr.0 <= SREG_LIMIT
        &&& self.k_dim.0 <= SREG_LIMIT
        &&& self.n_dim.0 <= SREG_LIMIT
        &&& self.y_split_stride.0 <= SREG_LIMIT
        &&& (self.bias matches Some(x) ==> x.0 <= SREG_LIMIT)
    }
}

/// The registers that say which tile and which part of K a workgroup computes.
#[derive(Clone, Copy)]
pub struct TileIds {
    pub tile_col: SReg,
    pub tile_row: SReg,
    pub k_end: SReg,
    pub k_start: SReg,
    pub y_offset: SReg,
}

impl TileIds {
    /// Whether the register numbers are small.
    pub open spec fn ok(self) -> bool {
        &&& self.tile_col.0 <= SREG_LIMIT
        &&& self.tile_row.0 <= SREG_LIMIT
        &&& self.k_end.0 <= SREG_LIMIT
        &&& self.k_start.0 <= SREG_LIMIT
        &&& self.y_offset.0 <= SREG_LIMIT
    }
}

/// The registers that say which thread of the workgroup this is.
#[derive(Clone, Copy)]
pub struct ThreadIds {
    pub lane_id: VReg,
    pub lane_row: VReg,
    pub wave_id: SReg,
}

impl ThreadIds {
    /// Whether the register numbers are small.
    pub open spec fn ok(self) -> bool {
        &&& self.lane_id.0 <= REG_LIMIT
        &&& self.lane_row.0 <= REG_LIMIT
        &&& self.wave_id.0 <= SREG_LIMIT
    }
}

/// The registers that hold the first row of each block, and the first column. Those of the
/// blocks behind the first are numbered from `rest` on.
#[derive(Clone, Copy)]
pub struct RowBases {
    pub first: SReg,
    pub rest: SReg,
    pub base_n: SReg,
}

impl RowBases {
    /// Whether the register numbers are small.
    pub open spec fn ok(self) -> bool {
        &&& self.first.0 <= SREG_LIMIT
        &&& self.rest.0 <= SREG_LIMIT
        &&& self.base_n.0 <= SREG_LIMIT
    }
}

/// The row and the sixteen-byte column that a thread loads.
#[derive(Clone, Copy)]
pub struct Chunk {
    pub row: VReg,
    pub col: VReg,
}

impl Chunk {
    /// Whether the register numbers are small.
    pub open spec fn ok(self) -> bool {
        &&& self.row.0 <= REG_LIMIT
        &&& self.col.0 <= REG_LIMIT
    }
}

/// Where a thread loads an input from, and where in the local data share it puts it.
#[derive(Clone, Copy)]
pub struct Source {
    pub gmem: VReg,
    pub lds: VReg,
}

impl Source {
    /// Whether the register numbers are small.
    pub open spec fn ok(self) -> bool {
        &&& self.gmem.0 <= REG_LIMIT
        &&& self.lds.0 <= REG_LIMIT
    }
}

/// Where in the local data share the fragments begin. Those of the left input are numbered
/// from `x` on.
#[derive(Clone, Copy)]
pub struct ReadAddrs {
    pub x: VReg,
    pub wt: VReg,
}

impl ReadAddrs {
    /// Whether the register numbers are small.
    pub open spec fn ok(self) -> bool {
        &&& self.x.0 <= REG_LIMIT
        &&& self.wt.0 <= REG_LIMIT
    }
}

/// Registers that every step uses again: loaded data, fragments, addresses.
#[derive(Clone, Copy)]
pub struct Temps {
    pub gmem_x: VReg,
    pub gmem_wt: VReg,
    pub x_frags: VReg,
    pub wt_frags: VReg,
    pub xa: VReg,
    pub wa: VReg,
    pub lds_x: VReg,
    pub lds_w: VReg,
    pub frag: VReg,
}

impl Temps {
    /// Whether the register numbers are small.
    pub open spec fn ok(self) -> bool {
        &&& self.gmem_x.0 <= REG_LIMIT
        &&& self.gmem_wt.0 <= REG_LIMIT
        &&& self.x_frags.0 <= REG_LIMIT
        &&& self.wt_frags.0 <= REG_LIMIT
        &&& self.xa.0 <= REG_LIMIT
        &&& self.wa.0 <= REG_LIMIT
        &&& self.lds_x.0 <= REG_LIMIT
        &&& self.lds_w.0 <= REG_LIMIT
        &&& self.frag.0 <= REG_LIMIT
    }

    /// Whether registers that are named by the first of several were handed out together.
    pub open spec fn grouped(self, p: Plan, va: Seq<VRegAlloc>) -> bool {
        &&& runs(va, self.gmem_x, 4, p.x_loads)
        &&& runs(va, self.gmem_wt, 4, p.wt_loads)
        &&& runs(va, self.x_frags, 8, p.nrb)
        &&& runs(va, self.wt_frags, 8, p.nct)
        &&& v_grouped(va, self.xa, 2)
        &&& v_grouped(va, self.wa, 2)
    }
}

/// The registers that drive the loop over K, and the offsets of the two buffers.
#[derive(Clone, Copy)]
pub struct LoopState {
    pub k_off: VReg,
    pub k_iter: SReg,
    pub buf0: VReg,
    pub buf1: VReg,
}

impl LoopState {
    /// Whether the register numbers are small.
    pub open spec fn ok(self) -> bool {
        &&& self.k_off.0 <= REG_LIMIT
        &&& self.k_iter.0 <= SREG_LIMIT
        &&& self.buf0.0 <= REG_LIMIT
        &&& self.buf1.0 <= REG_LIMIT
    }
}

/// Everything that the loop and the store need.
#[derive(Clone, Copy)]
pub struct Context {
    pub p: Plan,
    pub args: GemmArgs,
    pub tile: TileIds,
    pub thread: ThreadIds,
    pub acc: VReg,
    pub rows: RowBases,
    pub x: Source,
    pub wt: Source,
    pub reads: ReadAddrs,
    pub temps: Temps,
    pub x_stride: VReg,
    pub wt_stride: VReg,
    pub st: LoopState,
}

impl Context {
    /// Whether the register numbers are small.
    pub open spec fn ok(self) -> bool {
        &&& self.p.ok()
        &&& self.args.ok()
        &&& self.tile.ok()
        &&& self.thread.ok()
        &&& self.acc.0 <= REG_LIMIT
        &&& self.rows.ok()
        &&& self.x.ok()
        &&& self.wt.ok()
        &&& self.reads.ok()
        &&& self.temps.ok()
        &&& self.x_stride.0 <= REG_LIMIT
        &&& self.wt_stride.0 <= REG_LIMIT
        &&& self.st.ok()
    }

    /// Whether registers that are named by the first of several were handed out together.
    pub open spec fn grouped(self, va: Seq<VRegAlloc>) -> bool {
        &&& self.temps.grouped(self.p, va)
        &&& runs(va, self.acc, 8, (self.p.nrb * self.p.nct) as u32)
    }
}

/// What all stores share.
#[derive(Clone, Copy)]
pub struct StoreRegs {
    pub lane_half: VReg,
    pub n_vreg: VReg,
    pub row_stride: VReg,
    pub col_bytes: VReg,
}

impl StoreRegs {
    /// Whether the register numbers are small.
    pub open spec fn ok(self) -> bool {
        &&& self.lane_half.0 <= REG_LIMIT
        &&& self.n_vreg.0 <= REG_LIMIT
        &&& self.row_stride.0 <= REG_LIMIT
        &&& self.col_bytes.0 <= REG_LIMIT
    }
}
/// The first row of a block.
pub open spec fn row_base_of(rows: RowBases, r: u32) -> SReg {
    if r == 0 {
        rows.first
    } else {
        s_plus(rows.rest, (r - 1) as u32)
    }
}

/// The first row of a block.
#[verifier::when_used_as_spec(row_base_of)]
pub fn row_base(rows: RowBases, r: u32) -> (res: SReg)
    requires
        rows.ok(),
        r <= 4,
    ensures
        res == row_base_of(rows, r),
{
    if r == 0 {
        rows.first
    } else {
        s_at(rows.rest, r - 1)
    }
}

// ── In front of the loop ──
/// Declares the arguments and loads them.
#[verifier::opaque]
pub open spec fn declare_args_part(s: KernelState, p: Plan) -> (KernelState, GemmArgs) {
    let first = s.next_sreg as u32;
    let s = s.with_arg("X"@, ArgKind::Ptr).with_arg("WT"@, ArgKind::Ptr).with_arg(
        "Y"@,
        ArgKind::Ptr,
    ).with_arg("K"@, ArgKind::U32).with_arg("N"@, ArgKind::U32).with_arg(
        "split_k_shift"@,
        ArgKind::U32,
    ).with_arg("y_split_stride"@, ArgKind::U32);
    let (s, bias) = if p.bias {
        (s.with_arg("bias"@, ArgKind::Ptr), Some(SRegPair((first + 10) as u32)))
    } else {
        (s, None)
    };
    let s = s.with_ops(arg_load_ops(s.args)).with_op(OpOf::WaitLgkmcnt(0));
    (
        s,
        GemmArgs {
            x_ptr: SRegPair(first),
            wt_ptr: SRegPair((first + 2) as u32),
            y_ptr: SRegPair((first + 4) as u32),
            k_dim: SReg((first + 6) as u32),
            n_dim: SReg((first + 7) as u32),
            y_split_stride: SReg((first + 9) as u32),
            bias,
        },
    )
}

/// Declares the arguments and loads them.
fn declare_args(k: &mut T0Kernel, p: Plan) -> (r: GemmArgs)
    requires
        ready(old(k)@, 0, 12),
        old(k)@.kernarg_size == 0,
    ensures
        (final(k)@, r) == declare_args_part(old(k)@, p),
        sized(old(k)@, final(k)@, 0, 12),
        declared(old(k)@, final(k)@, p.bias),
        r.ok(),
{
    proof {
        reveal(declare_args_part);
    }
    let x_ptr = k.arg_ptr("X");
    let wt_ptr = k.arg_ptr("WT");
    let y_ptr = k.arg_ptr("Y");
    let k_dim = k.arg_u32("K");
    let n_dim = k.arg_u32("N");
    let _reserved = k.arg_u32("split_k_shift");
    let y_split_stride = k.arg_u32("y_split_stride");
    let bias = if p.bias {
        Some(k.arg_ptr("bias"))
    } else {
        None
    };
    proof {
        if mask_free(k@.ops) {
            lemma_mask_free_loads(k@.ops, k@.args);
        }
    }
    proof {
        if old(k)@.args.len() == 0 && old(k)@.next_sreg == 0 {
            assert(k@.args =~= gemm_arg_list(p.bias));
        }
    }
    proof {
        if kernel_settled(old(k)@) {
            assert(old(k)@.args.len() == 0);
            assert(old(k)@.args =~= Seq::empty());
            assert forall|i: int| 0 <= i < k@.args.len() implies arg_settled(
                #[trigger] k@.args[i],
                k@.sreg_allocs,
            ) by {}
            lemma_settled_loads(k@.ops, k@.vreg_allocs, k@.sreg_allocs, k@.args);
        }
    }
    k.emit_arg_loads();
    GemmArgs { x_ptr, wt_ptr, y_ptr, k_dim, n_dim, y_split_stride, bias }
}

/// Takes one grid axis apart into a tile number and a part of K.
#[verifier::opaque]
pub open spec fn split_axis_part(
    s: KernelState,
    p: Plan,
    dst: SReg,
    tgid: SReg,
    split_id: SReg,
) -> KernelState {
    let s = if p.split_k <= 1 {
        let s = s.with_op(OpOf::SAddU32 { dst, src0: tgid, src1: SOperand::InlineInt(0) });
        let s = s.with_op(OpOf::SMov { dst: split_id, src: SOperand::InlineInt(0) });
        s
    } else {
        let s = s.with_op(OpOf::SLshrB32 { dst, src: tgid, shift: p.split_shift });
        let mask = SReg(s.next_sreg as u32);
        let s = s.with_sregs(1, Alignment::Align1);
        let s = s.with_op(
            OpOf::SMov { dst: mask, src: SOperand::InlineInt((p.split_k - 1) as i32) },
        );
        let s = s.with_op(OpOf::SAndB32 { dst: split_id, src0: tgid, src1: SOperand::SReg(mask) });
        s
    };
    s
}

/// Takes one grid axis apart into a tile number and a part of K.
fn split_axis(k: &mut T0Kernel, p: Plan, dst: SReg, tgid: SReg, split_id: SReg)
    requires
        ready(old(k)@, 0, 1),
        p.ok(),
        dst.0 <= SREG_MAX,
        tgid.0 <= SREG_MAX,
        split_id.0 <= SREG_MAX,
    ensures
        final(k)@ == split_axis_part(old(k)@, p, dst, tgid, split_id),
        grown(old(k)@, final(k)@, 0, 1),
{
    proof {
        reveal(split_axis_part);
    }
    if p.split_k <= 1 {
        k.push(OpOf::SAddU32 { dst, src0: tgid, src1: SOperand::InlineInt(0) });
        k.s_mov_imm(split_id, 0);
    } else {
        k.s_lshr_b32(dst, tgid, p.split_shift);
        let mask = k.alloc_sreg();
        k.s_mov_imm(mask, (p.split_k - 1) as i32);
        k.s_and_b32(split_id, tgid, mask);
    }
}

/// Finds out which tile and which part of K the workgroup computes.
#[verifier::opaque]
pub open spec fn tile_ids_part(s: KernelState, p: Plan, args: GemmArgs) -> (KernelState, TileIds) {
    let tgid_x = SReg(s.next_sreg as u32);
    let s = s.with_sregs(1, Alignment::Align1);
    let s = s.with_op(OpOf::CaptureTgid { dst: tgid_x, axis: 0 });
    let tgid_y = SReg(s.next_sreg as u32);
    let s = s.with_sregs(1, Alignment::Align1);
    let s = s.with_op(OpOf::CaptureTgid { dst: tgid_y, axis: 1 });
    let tile_col = SReg(s.next_sreg as u32);
    let s = s.with_sregs(1, Alignment::Align1);
    let tile_row = SReg(s.next_sreg as u32);
    let s = s.with_sregs(1, Alignment::Align1);
    let split_id = SReg(s.next_sreg as u32);
    let s = s.with_sregs(1, Alignment::Align1);
    let s = if p.swap_grid {
        let s = s.with_op(
            OpOf::SAddU32 { dst: tile_col, src0: tgid_x, src1: SOperand::InlineInt(0) },
        );
        let s = split_axis_part(s, p, tile_row, tgid_y, split_id);
        s
    } else {
        let s = s.with_op(
            OpOf::SAddU32 { dst: tile_row, src0: tgid_x, src1: SOperand::InlineInt(0) },
        );
        let s = split_axis_part(s, p, tile_col, tgid_y, split_id);
        s
    };
    let k_end = SReg(s.next_sreg as u32);
    let s = s.with_sregs(1, Alignment::Align1);
    let s = if p.split_k <= 1 {
        let s = s.with_op(
            OpOf::SAddU32 { dst: k_end, src0: args.k_dim, src1: SOperand::InlineInt(0) },
        );
        s
    } else {
        let s = s.with_op(OpOf::SLshrB32 { dst: k_end, src: args.k_dim, shift: p.split_shift });
        s
    };
    let k_start = SReg(s.next_sreg as u32);
    let s = s.with_sregs(1, Alignment::Align1);
    let s = if p.split_k <= 1 {
        let s = s.with_op(OpOf::SMov { dst: k_start, src: SOperand::InlineInt(0) });
        s
    } else {
        let part = SReg(s.next_sreg as u32);
        let s = s.with_sregs(1, Alignment::Align1);
        let s = s.with_op(OpOf::SMulI32 { dst: part, src0: split_id, src1: k_end });
        let s = s.with_op(OpOf::SLshlB32 { dst: k_start, src: part, shift: 1 });
        s
    };
    let y_offset = SReg(s.next_sreg as u32);
    let s = s.with_sregs(1, Alignment::Align1);
    let s = if p.split_k <= 1 {
        let s = s.with_op(OpOf::SMov { dst: y_offset, src: SOperand::InlineInt(0) });
        s
    } else {
        let s = s.with_op(
            OpOf::SMulI32 { dst: y_offset, src0: split_id, src1: args.y_split_stride },
        );
        s
    };
    (s, TileIds { tile_col, tile_row, k_end, k_start, y_offset })
}

/// Finds out which tile and which part of K the workgroup computes.
fn tile_ids(k: &mut T0Kernel, p: Plan, args: GemmArgs) -> (r: TileIds)
    requires
        ready(old(k)@, 0, 10),
        p.ok(),
        args.ok(),
    ensures
        (final(k)@, r) == tile_ids_part(old(k)@, p, args),
        grown(old(k)@, final(k)@, 0, 10),
        r.ok(),
{
    proof {
        reveal(tile_ids_part);
    }
    let tgid_x = k.alloc_sreg();
    k.capture_tgid_x(tgid_x);
    let tgid_y = k.alloc_sreg();
    k.capture_tgid_y(tgid_y);
    let tile_col = k.alloc_sreg();
    let tile_row = k.alloc_sreg();
    let split_id = k.alloc_sreg();
    if p.swap_grid {
        k.push(OpOf::SAddU32 { dst: tile_col, src0: tgid_x, src1: SOperand::InlineInt(0) });
        split_axis(k, p, tile_row, tgid_y, split_id);
    } else {
        k.push(OpOf::SAddU32 { dst: tile_row, src0: tgid_x, src1: SOperand::InlineInt(0) });
        split_axis(k, p, tile_col, tgid_y, split_id);
    }
    let k_end = k.alloc_sreg();
    if p.split_k <= 1 {
        k.push(OpOf::SAddU32 { dst: k_end, src0: args.k_dim, src1: SOperand::InlineInt(0) });
    } else {
        k.s_lshr_b32(k_end, args.k_dim, p.split_shift);
    }
    let k_start = k.alloc_sreg();
    if p.split_k <= 1 {
        k.s_mov_imm(k_start, 0);
    } else {
        let part = k.alloc_sreg();
        k.s_mul_i32(part, split_id, k_end);
        k.s_lshl_b32(k_start, part, 1);
    }
    let y_offset = k.alloc_sreg();
    if p.split_k <= 1 {
        k.s_mov_imm(y_offset, 0);
    } else {
        k.s_mul_i32(y_offset, split_id, args.y_split_stride);
    }
    TileIds { tile_col, tile_row, k_end, k_start, y_offset }
}

/// Takes the thread number apart into lane and wave.
#[verifier::opaque]
pub open spec fn thread_ids_part(s: KernelState) -> (KernelState, ThreadIds) {
    let lane_id = VReg(s.next_vreg as u32);
    let s = s.with_vregs(1, Alignment::Align1);
    let s = s.with_op(
        OpOf::VAndB32 {
            dst: lane_id,
            src0: Operand::VReg(VReg(0)),
            src1: Operand::InlineInt(31 as i32),
        },
    );
    let wave = VReg(s.next_vreg as u32);
    let s = s.with_vregs(1, Alignment::Align1);
    let s = s.with_op(OpOf::VLshrrevB32 { dst: wave, shift: 5, src: VReg(0) });
    let wave_id = SReg(s.next_sreg as u32);
    let s = s.with_sregs(1, Alignment::Align1);
    let s = s.with_op(OpOf::VReadfirstlane { dst: wave_id, src: wave });
    let lane_row = VReg(s.next_vreg as u32);
    let s = s.with_vregs(1, Alignment::Align1);
    let s = s.with_op(
        OpOf::VAndB32 {
            dst: lane_row,
            src0: Operand::VReg(lane_id),
            src1: Operand::InlineInt(15 as i32),
        },
    );
    (s, ThreadIds { lane_id, lane_row, wave_id })
}

/// Takes the thread number apart into lane and wave.
fn thread_ids(k: &mut T0Kernel) -> (r: ThreadIds)
    requires
        ready(old(k)@, 3, 1),
    ensures
        (final(k)@, r) == thread_ids_part(old(k)@),
        grown(old(k)@, final(k)@, 3, 1),
        r.ok(),
{
    proof {
        reveal(thread_ids_part);
    }
    let lane_id = k.alloc_vreg();
    k.v_and_b32_imm(lane_id, VReg(0), 31);
    let wave = k.alloc_vreg();
    k.v_lshrrev_b32(wave, 5, VReg(0));
    let wave_id = k.alloc_sreg();
    k.push(OpOf::VReadfirstlane { dst: wave_id, src: wave });
    let lane_row = k.alloc_vreg();
    k.v_and_b32_imm(lane_row, lane_id, 15);
    ThreadIds { lane_id, lane_row, wave_id }
}

/// Hands out groups of eight registers.
#[verifier::opaque]
pub open spec fn groups8_part(s: KernelState, n: u32) -> KernelState
    decreases n,
{
    if n == 0 {
        s
    } else {
        let i = (n - 1) as u32;
        let s = groups8_part(s, i);
        let group = VReg(s.next_vreg as u32);
        let s = s.with_vregs(8, Alignment::Align8);
        s
    }
}

/// Hands out groups of eight registers.
fn groups8(k: &mut T0Kernel, n: u32) -> (r: VReg)
    requires
        ready(old(k)@, 256, 0),
        n <= 32,
    ensures
        final(k)@ == groups8_part(old(k)@, n),
        grown(old(k)@, final(k)@, 256, 0),
        r == first_vreg(old(k)@, n),
        runs(final(k)@.vreg_allocs, r, 8, n),
        r.0 <= REG_LIMIT,
{
    proof {
        reveal(groups8_part);
    }
    let mut head = VReg(0);
    let mut i: u32 = 0;
    proof {
        lemma_runs_none(k@.vreg_allocs, head, 8);
    }
    while i < n
        invariant
            i <= n,
            n <= 32,
            ready(old(k)@, 256, 0),
            head == first_vreg(old(k)@, i),
            runs(k@.vreg_allocs, head, 8, i),
            k@.next_vreg == old(k)@.next_vreg + 8 * i,
            head.0 <= REG_LIMIT,
            k@ == groups8_part(old(k)@, i),
            grown(old(k)@, k@, 8 * i as nat, 0),
        decreases n - i,
    {
        proof {
            reveal(groups8_part);
        }
        let ghost was = k@.vreg_allocs;
        let group = k.alloc_vreg_array(8, Alignment::Align8);
        if i == 0 {
            head = group;
        }
        proof {
            assert(k@.vreg_allocs == was.push(k@.vreg_allocs.last()));
            lemma_runs_push(was, k@.vreg_allocs.last(), head, 8, i);
        }
        i = i + 1;
    }
    head
}

/// Hands out groups of four registers.
#[verifier::opaque]
pub open spec fn groups4_part(s: KernelState, n: u32) -> KernelState
    decreases n,
{
    if n == 0 {
        s
    } else {
        let i = (n - 1) as u32;
        let s = groups4_part(s, i);
        let group = VReg(s.next_vreg as u32);
        let s = s.with_vregs(4, Alignment::Align4);
        s
    }
}

/// Hands out groups of four registers.
fn groups4(k: &mut T0Kernel, n: u32) -> (r: VReg)
    requires
        ready(old(k)@, 256, 0),
        n <= 64,
    ensures
        final(k)@ == groups4_part(old(k)@, n),
        grown(old(k)@, final(k)@, 256, 0),
        r == first_vreg(old(k)@, n),
        runs(final(k)@.vreg_allocs, r, 4, n),
        r.0 <= REG_LIMIT,
{
    proof {
        reveal(groups4_part);
    }
    let mut head = VReg(0);
    let mut i: u32 = 0;
    proof {
        lemma_runs_none(k@.vreg_allocs, head, 4);
    }
    while i < n
        invariant
            i <= n,
            n <= 64,
            ready(old(k)@, 256, 0),
            head == first_vreg(old(k)@, i),
            runs(k@.vreg_allocs, head, 4, i),
            k@.next_vreg == old(k)@.next_vreg + 4 * i,
            head.0 <= REG_LIMIT,
            k@ == groups4_part(old(k)@, i),
            grown(old(k)@, k@, 4 * i as nat, 0),
        decreases n - i,
    {
        proof {
            reveal(groups4_part);
        }
        let ghost was = k@.vreg_allocs;
        let group = k.alloc_vreg_array(4, Alignment::Align4);
        if i == 0 {
            head = group;
        }
        proof {
            assert(k@.vreg_allocs == was.push(k@.vreg_allocs.last()));
            lemma_runs_push(was, k@.vreg_allocs.last(), head, 4, i);
        }
        i = i + 1;
    }
    head
}

/// Clears registers from `base` on.
#[verifier::opaque]
pub open spec fn zeros_part(s: KernelState, base: VReg, n: u32) -> KernelState
    decreases n,
{
    if n == 0 {
        s
    } else {
        let i = (n - 1) as u32;
        let s = zeros_part(s, base, i);
        let s = s.with_op(OpOf::VMov { dst: v_at(base, i), src: Operand::InlineInt(0) });
        s
    }
}

/// Clears registers from `base` on.
fn zeros(k: &mut T0Kernel, base: VReg, n: u32)
    requires
        ready(old(k)@, 0, 0),
        n <= 256,
        base.0 <= REG_MAX,
    ensures
        final(k)@ == zeros_part(old(k)@, base, n),
        grown(old(k)@, final(k)@, 0, 0),
{
    proof {
        reveal(zeros_part);
    }
    let mut i: u32 = 0;
    while i < n
        invariant
            i <= n,
            n <= 256,
            ready(old(k)@, 0, 0),
            base.0 <= REG_MAX,
            k@ == zeros_part(old(k)@, base, i),
            grown(old(k)@, k@, 0, 0),
        decreases n - i,
    {
        proof {
            reveal(zeros_part);
        }
        k.v_mov_imm(v_at(base, i), 0);
        i = i + 1;
    }
}

/// Computes the first row of each block behind the first.
#[verifier::opaque]
pub open spec fn row_blocks_part(s: KernelState, first: SReg, n: u32) -> KernelState
    decreases n,
{
    if n == 0 {
        s
    } else {
        let i = (n - 1) as u32;
        let s = row_blocks_part(s, first, i);
        let row = SReg(s.next_sreg as u32);
        let s = s.with_sregs(1, Alignment::Align1);
        let s = s.with_op(
            OpOf::SAddU32 {
                dst: row,
                src0: first,
                src1: SOperand::InlineInt(((i + 1) * 16) as i32),
            },
        );
        s
    }
}

/// Computes the first row of each block behind the first.
fn row_blocks(k: &mut T0Kernel, first: SReg, n: u32) -> (r: SReg)
    requires
        ready(old(k)@, 0, 3),
        n <= 3,
        first.0 <= SREG_MAX,
    ensures
        final(k)@ == row_blocks_part(old(k)@, first, n),
        grown(old(k)@, final(k)@, 0, 3),
        r == first_sreg(old(k)@, n),
        r.0 <= SREG_LIMIT,
{
    proof {
        reveal(row_blocks_part);
    }
    let mut head = SReg(0);
    let mut i: u32 = 0;
    while i < n
        invariant
            i <= n,
            n <= 3,
            ready(old(k)@, 0, 3),
            first.0 <= SREG_MAX,
            head == first_sreg(old(k)@, i),
            head.0 <= SREG_LIMIT,
            k@ == row_blocks_part(old(k)@, first, i),
            grown(old(k)@, k@, 0, 1 * i as nat),
        decreases n - i,
    {
        proof {
            reveal(row_blocks_part);
        }
        let row = k.alloc_sreg();
        k.push(
            OpOf::SAddU32 {
                dst: row,
                src0: first,
                src1: SOperand::InlineInt(((i + 1) * 16) as i32),
            },
        );
        if i == 0 {
            head = row;
        }
        i = i + 1;
    }
    head
}

/// Computes the first row of each block and the first column.
#[verifier::opaque]
pub open spec fn row_bases_part(
    s: KernelState,
    p: Plan,
    tile: TileIds,
    wave_id: SReg,
) -> (KernelState, RowBases) {
    let first = SReg(s.next_sreg as u32);
    let s = s.with_sregs(1, Alignment::Align1);
    let s = s.with_op(OpOf::SLshlB32 { dst: first, src: tile.tile_row, shift: p.tile_m_shift });
    let wave_rows = SReg(s.next_sreg as u32);
    let s = s.with_sregs(1, Alignment::Align1);
    let s = s.with_op(OpOf::SLshlB32 { dst: wave_rows, src: wave_id, shift: p.rpw_shift });
    let s = s.with_op(OpOf::SAddU32 { dst: first, src0: first, src1: SOperand::SReg(wave_rows) });
    let rest = first_sreg(s, (p.nrb - 1) as u32);
    let s = row_blocks_part(s, first, (p.nrb - 1) as u32);
    let base_n = SReg(s.next_sreg as u32);
    let s = s.with_sregs(1, Alignment::Align1);
    let s = s.with_op(OpOf::SLshlB32 { dst: base_n, src: tile.tile_col, shift: p.tile_n_shift });
    (s, RowBases { first, rest, base_n })
}

/// Computes the first row of each block and the first column.
fn row_bases(k: &mut T0Kernel, p: Plan, tile: TileIds, wave_id: SReg) -> (r: RowBases)
    requires
        ready(old(k)@, 0, 6),
        p.ok(),
        tile.ok(),
        wave_id.0 <= SREG_MAX,
    ensures
        (final(k)@, r) == row_bases_part(old(k)@, p, tile, wave_id),
        grown(old(k)@, final(k)@, 0, 6),
        r.ok(),
{
    proof {
        reveal(row_bases_part);
    }
    let first = k.alloc_sreg();
    k.s_lshl_b32(first, tile.tile_row, p.tile_m_shift);
    let wave_rows = k.alloc_sreg();
    k.s_lshl_b32(wave_rows, wave_id, p.rpw_shift);
    k.push(OpOf::SAddU32 { dst: first, src0: first, src1: SOperand::SReg(wave_rows) });
    let rest = row_blocks(k, first, (p.nrb - 1) as u32);
    let base_n = k.alloc_sreg();
    k.s_lshl_b32(base_n, tile.tile_col, p.tile_n_shift);
    RowBases { first, rest, base_n }
}

/// Computes the row and the column that a thread loads.
#[verifier::opaque]
pub open spec fn chunk_part(s: KernelState, p: Plan) -> (KernelState, Chunk) {
    let row = VReg(s.next_vreg as u32);
    let s = s.with_vregs(1, Alignment::Align1);
    let s = s.with_op(OpOf::VLshrrevB32 { dst: row, shift: p.chunk_shift, src: VReg(0) });
    let col = VReg(s.next_vreg as u32);
    let s = s.with_vregs(1, Alignment::Align1);
    let s = s.with_op(
        OpOf::VAndB32 {
            dst: col,
            src0: Operand::VReg(VReg(0)),
            src1: Operand::InlineInt((p.chunks - 1) as u32 as i32),
        },
    );
    (s, Chunk { row, col })
}

/// Computes the row and the column that a thread loads.
fn chunk(k: &mut T0Kernel, p: Plan) -> (r: Chunk)
    requires
        ready(old(k)@, 2, 0),
        p.ok(),
    ensures
        (final(k)@, r) == chunk_part(old(k)@, p),
        grown(old(k)@, final(k)@, 2, 0),
        r.ok(),
{
    proof {
        reveal(chunk_part);
    }
    let row = k.alloc_vreg();
    k.v_lshrrev_b32(row, p.chunk_shift, VReg(0));
    let col = k.alloc_vreg();
    k.v_and_b32_imm(col, VReg(0), (p.chunks - 1) as u32);
    Chunk { row, col }
}

/// Multiplies a row number by the bytes per row: a shift where that is a power of two.
#[verifier::opaque]
pub open spec fn scale_rows_part(s: KernelState, p: Plan, dst: VReg, src: VReg) -> KernelState {
    let s = match p.row_shift {
        Some(shift) => {
            let s = s.with_op(OpOf::VLshlrevB32 { dst, shift, src });
            s
        },
        None => {
            let stride_s = SReg(s.next_sreg as u32);
            let s = s.with_sregs(1, Alignment::Align1);
            let s = s.with_op(
                OpOf::SMov { dst: stride_s, src: SOperand::InlineInt(p.row_stride as i32) },
            );
            let stride_v = VReg(s.next_vreg as u32);
            let s = s.with_vregs(1, Alignment::Align1);
            let s = s.with_op(OpOf::VMovFromSgpr { dst: stride_v, src: stride_s });
            let s = s.with_op(OpOf::VMulLoU32 { dst, src0: src, src1: stride_v });
            s
        },
    };
    s
}

/// Multiplies a row number by the bytes per row: a shift where that is a power of two.
fn scale_rows(k: &mut T0Kernel, p: Plan, dst: VReg, src: VReg)
    requires
        ready(old(k)@, 1, 1),
        p.ok(),
        dst.0 <= REG_MAX,
        src.0 <= REG_MAX,
    ensures
        final(k)@ == scale_rows_part(old(k)@, p, dst, src),
        grown(old(k)@, final(k)@, 1, 1),
{
    proof {
        reveal(scale_rows_part);
    }
    match p.row_shift {
        Some(shift) => {
            k.v_lshlrev_b32(dst, shift, src);
        },
        None => {
            let stride_s = k.alloc_sreg();
            k.s_mov_imm(stride_s, p.row_stride as i32);
            let stride_v = k.alloc_vreg();
            k.v_mov_from_sgpr(stride_v, stride_s);
            k.v_mul_lo_u32(dst, src, stride_v);
        },
    }
}

/// Computes where a thread loads an input from and where it puts it.
#[verifier::opaque]
pub open spec fn source_part(
    s: KernelState,
    p: Plan,
    ptr: SRegPair,
    at: Chunk,
    abs_row: VReg,
    base: SReg,
    k_vreg: VReg,
) -> (KernelState, Source) {
    let s = s.with_op(OpOf::VMovFromSgpr { dst: abs_row, src: base });
    let s = s.with_op(
        OpOf::VAddU32 { dst: abs_row, src0: Operand::VReg(abs_row), src1: Operand::VReg(at.row) },
    );
    let row_byte = VReg(s.next_vreg as u32);
    let s = s.with_vregs(1, Alignment::Align1);
    let s = s.with_op(OpOf::VMulLoU32 { dst: row_byte, src0: abs_row, src1: k_vreg });
    let s = s.with_op(OpOf::VLshlrevB32 { dst: row_byte, shift: 1, src: row_byte });
    let col_byte = VReg(s.next_vreg as u32);
    let s = s.with_vregs(1, Alignment::Align1);
    let s = s.with_op(OpOf::VLshlrevB32 { dst: col_byte, shift: 4, src: at.col });
    let s = s.with_op(
        OpOf::VAddU32 {
            dst: row_byte,
            src0: Operand::VReg(row_byte),
            src1: Operand::VReg(col_byte),
        },
    );
    let gmem = VReg(s.next_vreg as u32);
    let s = s.with_vregs(2, Alignment::Align2);
    let s = s.with_op(OpOf::VMovFromSgpr { dst: gmem, src: SReg(ptr.0) });
    let s = s.with_op(OpOf::VMovFromSgpr { dst: v_at(gmem, 1), src: s_at(SReg(ptr.0), 1) });
    let s = s.with_op(OpOf::VAddCo { dst: gmem, src0: gmem, src1: row_byte });
    let s = s.with_op(OpOf::VAddCoCi { dst: v_at(gmem, 1), src: v_at(gmem, 1) });
    let lds = VReg(s.next_vreg as u32);
    let s = s.with_vregs(1, Alignment::Align1);
    let s = scale_rows_part(s, p, lds, at.row);
    let s = s.with_op(
        OpOf::VAddU32 { dst: lds, src0: Operand::VReg(lds), src1: Operand::VReg(col_byte) },
    );
    (s, Source { gmem, lds })
}

/// Computes where a thread loads an input from and where it puts it.
fn source(
    k: &mut T0Kernel,
    p: Plan,
    ptr: SRegPair,
    at: Chunk,
    abs_row: VReg,
    base: SReg,
    k_vreg: VReg,
) -> (r: Source)
    requires
        ready(old(k)@, 6, 1),
        p.ok(),
        ptr.0 <= SREG_MAX,
        at.ok(),
        abs_row.0 <= REG_MAX,
        base.0 <= SREG_MAX,
        k_vreg.0 <= REG_MAX,
    ensures
        (final(k)@, r) == source_part(old(k)@, p, ptr, at, abs_row, base, k_vreg),
        grown(old(k)@, final(k)@, 6, 1),
        r.ok(),
{
    proof {
        reveal(source_part);
    }
    k.v_mov_from_sgpr(abs_row, base);
    k.v_add_u32(abs_row, abs_row, at.row);
    let row_byte = k.alloc_vreg();
    k.v_mul_lo_u32(row_byte, abs_row, k_vreg);
    k.v_lshlrev_b32(row_byte, 1, row_byte);
    let col_byte = k.alloc_vreg();
    k.v_lshlrev_b32(col_byte, 4, at.col);
    k.v_add_u32(row_byte, row_byte, col_byte);
    let gmem = k.alloc_vreg_array(2, Alignment::Align2);
    k.v_mov_from_sgpr(gmem, SReg(ptr.0));
    k.v_mov_from_sgpr(v_at(gmem, 1), s_at(SReg(ptr.0), 1));
    k.v_add_co(gmem, gmem, row_byte);
    k.v_add_co_ci(v_at(gmem, 1), v_at(gmem, 1));
    let lds = k.alloc_vreg();
    assert(extends(old(k)@.vreg_allocs, k@.vreg_allocs));
    scale_rows(k, p, lds, at.row);
    k.v_add_u32(lds, lds, col_byte);
    Source { gmem, lds }
}

/// Computes where a thread loads the left input.
#[verifier::opaque]
pub open spec fn x_source_part(
    s: KernelState,
    p: Plan,
    ptr: SRegPair,
    tile_row: SReg,
    k_vreg: VReg,
) -> (KernelState, Source) {
    let (s, at) = chunk_part(s, p);
    let abs_row = VReg(s.next_vreg as u32);
    let s = s.with_vregs(1, Alignment::Align1);
    let base = SReg(s.next_sreg as u32);
    let s = s.with_sregs(1, Alignment::Align1);
    let s = s.with_op(OpOf::SLshlB32 { dst: base, src: tile_row, shift: p.tile_m_shift });
    let (s, src) = source_part(s, p, ptr, at, abs_row, base, k_vreg);
    (s, src)
}

/// Computes where a thread loads the left input.
fn x_source(k: &mut T0Kernel, p: Plan, ptr: SRegPair, tile_row: SReg, k_vreg: VReg) -> (r: Source)
    requires
        ready(old(k)@, 9, 2),
        p.ok(),
        ptr.0 <= SREG_MAX,
        tile_row.0 <= SREG_MAX,
        k_vreg.0 <= REG_MAX,
    ensures
        (final(k)@, r) == x_source_part(old(k)@, p, ptr, tile_row, k_vreg),
        grown(old(k)@, final(k)@, 9, 2),
        r.ok(),
{
    proof {
        reveal(x_source_part);
    }
    let at = chunk(k, p);
    let abs_row = k.alloc_vreg();
    let base = k.alloc_sreg();
    k.s_lshl_b32(base, tile_row, p.tile_m_shift);
    assert(extends(old(k)@.vreg_allocs, k@.vreg_allocs));
    let src = source(k, p, ptr, at, abs_row, base, k_vreg);
    src
}

/// Computes where a thread loads the right input, which lies behind the left one.
#[verifier::opaque]
pub open spec fn wt_source_part(
    s: KernelState,
    p: Plan,
    ptr: SRegPair,
    base_n: SReg,
    k_vreg: VReg,
) -> (KernelState, Source) {
    let (s, at) = chunk_part(s, p);
    let abs_row = VReg(s.next_vreg as u32);
    let s = s.with_vregs(1, Alignment::Align1);
    let (s, src) = source_part(s, p, ptr, at, abs_row, base_n, k_vreg);
    let s = s.with_op(
        OpOf::VAddU32 {
            dst: src.lds,
            src0: Operand::VReg(src.lds),
            src1: Operand::InlineInt(p.lds_x as i32),
        },
    );
    (s, src)
}

/// Computes where a thread loads the right input, which lies behind the left one.
fn wt_source(k: &mut T0Kernel, p: Plan, ptr: SRegPair, base_n: SReg, k_vreg: VReg) -> (r: Source)
    requires
        ready(old(k)@, 9, 1),
        p.ok(),
        ptr.0 <= SREG_MAX,
        base_n.0 <= SREG_MAX,
        k_vreg.0 <= REG_MAX,
    ensures
        (final(k)@, r) == wt_source_part(old(k)@, p, ptr, base_n, k_vreg),
        grown(old(k)@, final(k)@, 9, 1),
        r.ok(),
{
    proof {
        reveal(wt_source_part);
    }
    let at = chunk(k, p);
    let abs_row = k.alloc_vreg();
    assert(extends(old(k)@.vreg_allocs, k@.vreg_allocs));
    let src = source(k, p, ptr, at, abs_row, base_n, k_vreg);
    k.push(
        OpOf::VAddU32 {
            dst: src.lds,
            src0: Operand::VReg(src.lds),
            src1: Operand::InlineInt(p.lds_x as i32),
        },
    );
    src
}

/// Computes where the fragments of the left input begin.
#[verifier::opaque]
pub open spec fn x_reads_part(
    s: KernelState,
    p: Plan,
    wave_off: SReg,
    lane_off: VReg,
    n: u32,
) -> KernelState
    decreases n,
{
    if n == 0 {
        s
    } else {
        let i = (n - 1) as u32;
        let s = x_reads_part(s, p, wave_off, lane_off, i);
        let at = VReg(s.next_vreg as u32);
        let s = s.with_vregs(1, Alignment::Align1);
        let s = s.with_op(OpOf::VMovFromSgpr { dst: at, src: wave_off });
        let s = s.with_op(
            OpOf::VAddU32 { dst: at, src0: Operand::VReg(at), src1: Operand::VReg(lane_off) },
        );
        let s = if i > 0 {
            let s = s.with_op(
                OpOf::VAddU32 {
                    dst: at,
                    src0: Operand::VReg(at),
                    src1: Operand::InlineInt((i * 16 * p.row_stride) as i32),
                },
            );
            s
        } else {
            s
        };
        s
    }
}

/// Computes where the fragments of the left input begin.
fn x_reads(k: &mut T0Kernel, p: Plan, wave_off: SReg, lane_off: VReg, n: u32) -> (r: VReg)
    requires
        ready(old(k)@, 4, 0),
        n <= 4,
        p.ok(),
        wave_off.0 <= SREG_MAX,
        lane_off.0 <= REG_MAX,
    ensures
        final(k)@ == x_reads_part(old(k)@, p, wave_off, lane_off, n),
        grown(old(k)@, final(k)@, 4, 0),
        r == first_vreg(old(k)@, n),
        r.0 <= REG_LIMIT,
{
    proof {
        reveal(x_reads_part);
    }
    let mut head = VReg(0);
    let mut i: u32 = 0;
    while i < n
        invariant
            i <= n,
            n <= 4,
            ready(old(k)@, 4, 0),
            p.ok(),
            wave_off.0 <= SREG_MAX,
            lane_off.0 <= REG_MAX,
            head == first_vreg(old(k)@, i),
            head.0 <= REG_LIMIT,
            k@ == x_reads_part(old(k)@, p, wave_off, lane_off, i),
            grown(old(k)@, k@, 1 * i as nat, 0),
        decreases n - i,
    {
        proof {
            reveal(x_reads_part);
        }
        let at = k.alloc_vreg();
        k.v_mov_from_sgpr(at, wave_off);
        k.v_add_u32(at, at, lane_off);
        proof {
            lemma_block_offset(i, p.row_stride);
        }
        if i > 0 {
            k.push(
                OpOf::VAddU32 {
                    dst: at,
                    src0: Operand::VReg(at),
                    src1: Operand::InlineInt((i * 16 * p.row_stride) as i32),
                },
            );
        }
        if i == 0 {
            head = at;
        }
        i = i + 1;
    }
    head
}

/// Computes where the fragments begin in the local data share.
#[verifier::opaque]
pub open spec fn read_addrs_part(
    s: KernelState,
    p: Plan,
    thread: ThreadIds,
) -> (KernelState, ReadAddrs) {
    let lane_off = VReg(s.next_vreg as u32);
    let s = s.with_vregs(1, Alignment::Align1);
    let s = scale_rows_part(s, p, lane_off, thread.lane_row);
    let wave_off = SReg(s.next_sreg as u32);
    let s = s.with_sregs(1, Alignment::Align1);
    let wave_stride = SReg(s.next_sreg as u32);
    let s = s.with_sregs(1, Alignment::Align1);
    let s = s.with_op(
        OpOf::SMov {
            dst: wave_stride,
            src: SOperand::InlineInt((p.rows_per_wave * p.row_stride) as i32),
        },
    );
    let s = s.with_op(OpOf::SMulI32 { dst: wave_off, src0: thread.wave_id, src1: wave_stride });
    let x = first_vreg(s, p.nrb);
    let s = x_reads_part(s, p, wave_off, lane_off, p.nrb);
    let wt = VReg(s.next_vreg as u32);
    let s = s.with_vregs(1, Alignment::Align1);
    let s = scale_rows_part(s, p, wt, thread.lane_row);
    (s, ReadAddrs { x, wt })
}

/// Computes where the fragments begin in the local data share.
fn read_addrs(k: &mut T0Kernel, p: Plan, thread: ThreadIds) -> (r: ReadAddrs)
    requires
        ready(old(k)@, 8, 4),
        p.ok(),
        thread.ok(),
    ensures
        (final(k)@, r) == read_addrs_part(old(k)@, p, thread),
        grown(old(k)@, final(k)@, 8, 4),
        r.ok(),
{
    proof {
        reveal(read_addrs_part);
    }
    let lane_off = k.alloc_vreg();
    assert(extends(old(k)@.vreg_allocs, k@.vreg_allocs));
    scale_rows(k, p, lane_off, thread.lane_row);
    let wave_off = k.alloc_sreg();
    let wave_stride = k.alloc_sreg();
    proof {
        lemma_wave_stride(p);
    }
    k.s_mov_imm(wave_stride, (p.rows_per_wave * p.row_stride) as i32);
    k.s_mul_i32(wave_off, thread.wave_id, wave_stride);
    assert(extends(old(k)@.vreg_allocs, k@.vreg_allocs));
    let x = x_reads(k, p, wave_off, lane_off, p.nrb);
    let wt = k.alloc_vreg();
    assert(extends(old(k)@.vreg_allocs, k@.vreg_allocs));
    scale_rows(k, p, wt, thread.lane_row);
    ReadAddrs { x, wt }
}

/// Hands out the registers that every step uses again.
#[verifier::opaque]
pub open spec fn temps_part(s: KernelState, p: Plan) -> (KernelState, Temps) {
    let gmem_x = first_vreg(s, p.x_loads);
    let s = groups4_part(s, p.x_loads);
    let gmem_wt = first_vreg(s, p.wt_loads);
    let s = groups4_part(s, p.wt_loads);
    let x_frags = first_vreg(s, p.nrb);
    let s = groups8_part(s, p.nrb);
    let wt_frags = first_vreg(s, p.nct);
    let s = groups8_part(s, p.nct);
    let xa = VReg(s.next_vreg as u32);
    let s = s.with_vregs(2, Alignment::Align2);
    let wa = VReg(s.next_vreg as u32);
    let s = s.with_vregs(2, Alignment::Align2);
    let lds_x = VReg(s.next_vreg as u32);
    let s = s.with_vregs(1, Alignment::Align1);
    let lds_w = VReg(s.next_vreg as u32);
    let s = s.with_vregs(1, Alignment::Align1);
    let frag = VReg(s.next_vreg as u32);
    let s = s.with_vregs(1, Alignment::Align1);
    (s, Temps { gmem_x, gmem_wt, x_frags, wt_frags, xa, wa, lds_x, lds_w, frag })
}

/// Hands out the registers that every step uses again.
fn temps(k: &mut T0Kernel, p: Plan) -> (r: Temps)
    requires
        ready(old(k)@, 1031, 0),
        p.ok(),
    ensures
        (final(k)@, r) == temps_part(old(k)@, p),
        grown(old(k)@, final(k)@, 1031, 0),
        r.ok(),
        r.grouped(p, final(k)@.vreg_allocs),
{
    proof {
        reveal(temps_part);
    }
    let gmem_x = groups4(k, p.x_loads);
    let ghost v1 = k@.vreg_allocs;
    let gmem_wt = groups4(k, p.wt_loads);
    let ghost v2 = k@.vreg_allocs;
    let x_frags = groups8(k, p.nrb);
    let ghost v3 = k@.vreg_allocs;
    let wt_frags = groups8(k, p.nct);
    let ghost v4 = k@.vreg_allocs;
    let xa = k.alloc_vreg_array(2, Alignment::Align2);
    let wa = k.alloc_vreg_array(2, Alignment::Align2);
    let lds_x = k.alloc_vreg();
    let lds_w = k.alloc_vreg();
    let frag = k.alloc_vreg();
    proof {
        let va = k@.vreg_allocs;
        lemma_runs_extend(v1, va, gmem_x, 4, p.x_loads);
        lemma_runs_extend(v2, va, gmem_wt, 4, p.wt_loads);
        lemma_runs_extend(v3, va, x_frags, 8, p.nrb);
        lemma_runs_extend(v4, va, wt_frags, 8, p.nct);
    }
    Temps { gmem_x, gmem_wt, x_frags, wt_frags, xa, wa, lds_x, lds_w, frag }
}

/// Computes the bytes between the rows of two passes of a load.
#[verifier::opaque]
pub open spec fn pass_stride_part(s: KernelState, p: Plan, k_vreg: VReg) -> (KernelState, VReg) {
    let stride = VReg(s.next_vreg as u32);
    let s = s.with_vregs(1, Alignment::Align1);
    let factor_v = VReg(s.next_vreg as u32);
    let s = s.with_vregs(1, Alignment::Align1);
    let factor = SReg(s.next_sreg as u32);
    let s = s.with_sregs(1, Alignment::Align1);
    let s = s.with_op(
        OpOf::SMov { dst: factor, src: SOperand::InlineInt((p.rows_per_pass * 2) as i32) },
    );
    let s = s.with_op(OpOf::VMovFromSgpr { dst: factor_v, src: factor });
    let s = s.with_op(OpOf::VMulLoU32 { dst: stride, src0: k_vreg, src1: factor_v });
    (s, stride)
}

/// Computes the bytes between the rows of two passes of a load.
fn pass_stride(k: &mut T0Kernel, p: Plan, k_vreg: VReg) -> (r: VReg)
    requires
        ready(old(k)@, 2, 1),
        p.ok(),
        k_vreg.0 <= REG_MAX,
    ensures
        (final(k)@, r) == pass_stride_part(old(k)@, p, k_vreg),
        grown(old(k)@, final(k)@, 2, 1),
        r.0 <= REG_LIMIT,
{
    proof {
        reveal(pass_stride_part);
    }
    let stride = k.alloc_vreg();
    let factor_v = k.alloc_vreg();
    let factor = k.alloc_sreg();
    k.s_mov_imm(factor, (p.rows_per_pass * 2) as i32);
    k.v_mov_from_sgpr(factor_v, factor);
    k.v_mul_lo_u32(stride, k_vreg, factor_v);
    stride
}

/// Starts the loop over K.
#[verifier::opaque]
pub open spec fn loop_state_part(
    s: KernelState,
    p: Plan,
    k_start: SReg,
) -> (KernelState, LoopState) {
    let k_off = VReg(s.next_vreg as u32);
    let s = s.with_vregs(1, Alignment::Align1);
    let s = s.with_op(OpOf::VMovFromSgpr { dst: k_off, src: k_start });
    let k_iter = SReg(s.next_sreg as u32);
    let s = s.with_sregs(1, Alignment::Align1);
    let s = s.with_op(OpOf::SMov { dst: k_iter, src: SOperand::InlineInt(0) });
    let buf0 = VReg(s.next_vreg as u32);
    let s = s.with_vregs(1, Alignment::Align1);
    let s = s.with_op(OpOf::VMov { dst: buf0, src: Operand::InlineInt(0) });
    let buf1 = VReg(s.next_vreg as u32);
    let s = s.with_vregs(1, Alignment::Align1);
    let s = s.with_op(OpOf::VMov { dst: buf1, src: Operand::InlineInt(p.lds_buf as i32) });
    (s, LoopState { k_off, k_iter, buf0, buf1 })
}

/// Starts the loop over K.
fn loop_state(k: &mut T0Kernel, p: Plan, k_start: SReg) -> (r: LoopState)
    requires
        ready(old(k)@, 3, 1),
        p.ok(),
        k_start.0 <= SREG_MAX,
    ensures
        (final(k)@, r) == loop_state_part(old(k)@, p, k_start),
        grown(old(k)@, final(k)@, 3, 1),
        r.ok(),
{
    proof {
        reveal(loop_state_part);
    }
    let k_off = k.alloc_vreg();
    k.v_mov_from_sgpr(k_off, k_start);
    let k_iter = k.alloc_sreg();
    k.s_mov_imm(k_iter, 0);
    let buf0 = k.alloc_vreg();
    k.v_mov_imm(buf0, 0);
    let buf1 = k.alloc_vreg();
    k.v_mov_imm(buf1, p.lds_buf as i32);
    LoopState { k_off, k_iter, buf0, buf1 }
}
/// Loads the passes of one input.
#[verifier::opaque]
pub open spec fn load_passes_part(
    s: KernelState,
    regs: VReg,
    addr: VReg,
    stride: VReg,
    count: u32,
    n: u32,
) -> KernelState
    decreases n,
{
    if n == 0 {
        s
    } else {
        let i = (n - 1) as u32;
        let s = load_passes_part(s, regs, addr, stride, count, i);
        let s = s.with_op(
            OpOf::GlobalLoad {
                dst: v_at(regs, (4 * i) as u32),
                addr,
                width: Width::B128,
                offset: 0,
            },
        );
        let s = if i + 1 < count {
            let s = s.with_op(OpOf::VAddCo { dst: addr, src0: addr, src1: stride });
            let s = s.with_op(OpOf::VAddCoCi { dst: v_at(addr, 1), src: v_at(addr, 1) });
            s
        } else {
            s
        };
        s
    }
}

/// Loads the passes of one input.
fn load_passes(k: &mut T0Kernel, regs: VReg, addr: VReg, stride: VReg, count: u32, n: u32)
    requires
        ready(old(k)@, 0, 0),
        v_grouped(old(k)@.vreg_allocs, addr, 2),
        runs(old(k)@.vreg_allocs, regs, 4, n),
        n <= 64,
        regs.0 <= REG_MAX,
        addr.0 <= REG_MAX,
        stride.0 <= REG_MAX,
    ensures
        final(k)@ == load_passes_part(old(k)@, regs, addr, stride, count, n),
        grown(old(k)@, final(k)@, 0, 0),
{
    proof {
        reveal(load_passes_part);
    }
    let mut i: u32 = 0;
    while i < n
        invariant
            i <= n,
            n <= 64,
            ready(old(k)@, 0, 0),
            v_grouped(old(k)@.vreg_allocs, addr, 2),
            runs(old(k)@.vreg_allocs, regs, 4, n),
            regs.0 <= REG_MAX,
            addr.0 <= REG_MAX,
            stride.0 <= REG_MAX,
            k@ == load_passes_part(old(k)@, regs, addr, stride, count, i),
            grown(old(k)@, k@, 0, 0),
        decreases n - i,
    {
        proof {
            reveal(load_passes_part);
        }
        proof {
            lemma_run_at(old(k)@.vreg_allocs, regs, 4, n, i);
        }
        k.global_load(v_at(regs, (4 * i) as u32), addr, Width::B128, 0);
        if i + 1 < count {
            k.v_add_co(addr, addr, stride);
            k.v_add_co_ci(v_at(addr, 1), v_at(addr, 1));
        }
        i = i + 1;
    }
}

/// Loads one input at an offset along K.
#[verifier::opaque]
pub open spec fn load_side_part(
    s: KernelState,
    regs: VReg,
    addr: VReg,
    gmem: VReg,
    stride: VReg,
    k_off: VReg,
    count: u32,
) -> KernelState {
    let s = s.with_op(OpOf::VMov { dst: addr, src: Operand::VReg(gmem) });
    let s = s.with_op(OpOf::VMov { dst: v_at(addr, 1), src: Operand::VReg(v_at(gmem, 1)) });
    let s = s.with_op(OpOf::VAddCo { dst: addr, src0: addr, src1: k_off });
    let s = s.with_op(OpOf::VAddCoCi { dst: v_at(addr, 1), src: v_at(addr, 1) });
    let s = load_passes_part(s, regs, addr, stride, count, count);
    s
}

/// Loads one input at an offset along K.
fn load_side(
    k: &mut T0Kernel,
    regs: VReg,
    addr: VReg,
    gmem: VReg,
    stride: VReg,
    k_off: VReg,
    count: u32,
)
    requires
        ready(old(k)@, 0, 0),
        v_grouped(old(k)@.vreg_allocs, addr, 2),
        runs(old(k)@.vreg_allocs, regs, 4, count),
        regs.0 <= REG_MAX,
        addr.0 <= REG_MAX,
        gmem.0 <= REG_MAX,
        stride.0 <= REG_MAX,
        k_off.0 <= REG_MAX,
        count <= 64,
    ensures
        final(k)@ == load_side_part(old(k)@, regs, addr, gmem, stride, k_off, count),
        grown(old(k)@, final(k)@, 0, 0),
{
    proof {
        reveal(load_side_part);
    }
    k.v_mov(addr, gmem);
    k.v_mov(v_at(addr, 1), v_at(gmem, 1));
    k.v_add_co(addr, addr, k_off);
    k.v_add_co_ci(v_at(addr, 1), v_at(addr, 1));
    load_passes(k, regs, addr, stride, count, count);
}

/// Loads both inputs at the offset along K that the loop has reached.
#[verifier::opaque]
pub open spec fn gmem_load_part(s: KernelState, c: Context) -> KernelState {
    let s = load_side_part(
        s,
        c.temps.gmem_x,
        c.temps.xa,
        c.x.gmem,
        c.x_stride,
        c.st.k_off,
        c.p.x_loads,
    );
    let s = load_side_part(
        s,
        c.temps.gmem_wt,
        c.temps.wa,
        c.wt.gmem,
        c.wt_stride,
        c.st.k_off,
        c.p.wt_loads,
    );
    s
}

/// Loads both inputs at the offset along K that the loop has reached.
fn gmem_load(k: &mut T0Kernel, c: Context)
    requires
        ready(old(k)@, 0, 0),
        c.grouped(old(k)@.vreg_allocs),
        c.ok(),
    ensures
        final(k)@ == gmem_load_part(old(k)@, c),
        grown(old(k)@, final(k)@, 0, 0),
{
    proof {
        reveal(gmem_load_part);
    }
    load_side(k, c.temps.gmem_x, c.temps.xa, c.x.gmem, c.x_stride, c.st.k_off, c.p.x_loads);
    load_side(k, c.temps.gmem_wt, c.temps.wa, c.wt.gmem, c.wt_stride, c.st.k_off, c.p.wt_loads);
}

/// Stores the passes of one input in the local data share.
#[verifier::opaque]
pub open spec fn store_passes_part(
    s: KernelState,
    regs: VReg,
    addr: VReg,
    step: i32,
    count: u32,
    n: u32,
) -> KernelState
    decreases n,
{
    if n == 0 {
        s
    } else {
        let i = (n - 1) as u32;
        let s = store_passes_part(s, regs, addr, step, count, i);
        let s = s.with_op(
            OpOf::DsStoreB128 { vaddr: addr, src: v_at(regs, (4 * i) as u32), offset: 0 },
        );
        let s = if i + 1 < count {
            let s = s.with_op(
                OpOf::VAddU32 {
                    dst: addr,
                    src0: Operand::VReg(addr),
                    src1: Operand::InlineInt(step),
                },
            );
            s
        } else {
            s
        };
        s
    }
}

/// Stores the passes of one input in the local data share.
fn store_passes(k: &mut T0Kernel, regs: VReg, addr: VReg, step: i32, count: u32, n: u32)
    requires
        ready(old(k)@, 0, 0),
        runs(old(k)@.vreg_allocs, regs, 4, n),
        n <= 64,
        regs.0 <= REG_MAX,
        addr.0 <= REG_MAX,
    ensures
        final(k)@ == store_passes_part(old(k)@, regs, addr, step, count, n),
        grown(old(k)@, final(k)@, 0, 0),
{
    proof {
        reveal(store_passes_part);
    }
    let mut i: u32 = 0;
    while i < n
        invariant
            i <= n,
            n <= 64,
            ready(old(k)@, 0, 0),
            runs(old(k)@.vreg_allocs, regs, 4, n),
            regs.0 <= REG_MAX,
            addr.0 <= REG_MAX,
            k@ == store_passes_part(old(k)@, regs, addr, step, count, i),
            grown(old(k)@, k@, 0, 0),
        decreases n - i,
    {
        proof {
            reveal(store_passes_part);
        }
        proof {
            lemma_run_at(old(k)@.vreg_allocs, regs, 4, n, i);
        }
        k.ds_store_b128(addr, v_at(regs, (4 * i) as u32), 0);
        if i + 1 < count {
            k.push(
                OpOf::VAddU32 {
                    dst: addr,
                    src0: Operand::VReg(addr),
                    src1: Operand::InlineInt(step),
                },
            );
        }
        i = i + 1;
    }
}

/// Stores both inputs in a buffer of the local data share.
#[verifier::opaque]
pub open spec fn lds_store_part(s: KernelState, c: Context, buf: VReg) -> KernelState {
    let s = s.with_op(
        OpOf::VAddU32 {
            dst: c.temps.lds_x,
            src0: Operand::VReg(c.x.lds),
            src1: Operand::VReg(buf),
        },
    );
    let s = store_passes_part(
        s,
        c.temps.gmem_x,
        c.temps.lds_x,
        (c.p.rows_per_pass * c.p.row_stride) as i32,
        c.p.x_loads,
        c.p.x_loads,
    );
    let s = s.with_op(
        OpOf::VAddU32 {
            dst: c.temps.lds_w,
            src0: Operand::VReg(c.wt.lds),
            src1: Operand::VReg(buf),
        },
    );
    let s = store_passes_part(
        s,
        c.temps.gmem_wt,
        c.temps.lds_w,
        (c.p.rows_per_pass * c.p.row_stride) as i32,
        c.p.wt_loads,
        c.p.wt_loads,
    );
    s
}

/// Stores both inputs in a buffer of the local data share.
fn lds_store(k: &mut T0Kernel, c: Context, buf: VReg)
    requires
        ready(old(k)@, 0, 0),
        c.grouped(old(k)@.vreg_allocs),
        c.ok(),
        buf.0 <= REG_MAX,
    ensures
        final(k)@ == lds_store_part(old(k)@, c, buf),
        grown(old(k)@, final(k)@, 0, 0),
{
    proof {
        reveal(lds_store_part);
    }
    proof {
        lemma_pass_step(c.p);
    }
    k.v_add_u32(c.temps.lds_x, c.x.lds, buf);
    store_passes(
        k,
        c.temps.gmem_x,
        c.temps.lds_x,
        (c.p.rows_per_pass * c.p.row_stride) as i32,
        c.p.x_loads,
        c.p.x_loads,
    );
    k.v_add_u32(c.temps.lds_w, c.wt.lds, buf);
    store_passes(
        k,
        c.temps.gmem_wt,
        c.temps.lds_w,
        (c.p.rows_per_pass * c.p.row_stride) as i32,
        c.p.wt_loads,
        c.p.wt_loads,
    );
}

/// Reads one fragment, the two halves sixteen bytes apart.
#[verifier::opaque]
pub open spec fn read_frag_part(
    s: KernelState,
    dst: VReg,
    tmp: VReg,
    base: VReg,
    buf: VReg,
    offset: u16,
) -> KernelState {
    let s = s.with_op(
        OpOf::VAddU32 { dst: tmp, src0: Operand::VReg(base), src1: Operand::VReg(buf) },
    );
    let s = s.with_op(OpOf::DsLoadB128 { dst, vaddr: tmp, offset });
    let s = s.with_op(
        OpOf::DsLoadB128 { dst: v_at(dst, 4), vaddr: tmp, offset: (offset + 16) as u16 },
    );
    s
}

/// Reads one fragment, the two halves sixteen bytes apart.
fn read_frag(k: &mut T0Kernel, dst: VReg, tmp: VReg, base: VReg, buf: VReg, offset: u16)
    requires
        ready(old(k)@, 0, 0),
        v_grouped(old(k)@.vreg_allocs, dst, 8),
        dst.0 <= REG_MAX,
        tmp.0 <= REG_MAX,
        base.0 <= REG_MAX,
        buf.0 <= REG_MAX,
        offset + 16 <= u16::MAX,
    ensures
        final(k)@ == read_frag_part(old(k)@, dst, tmp, base, buf, offset),
        grown(old(k)@, final(k)@, 0, 0),
{
    proof {
        reveal(read_frag_part);
    }
    proof {
        lemma_v_grouped_part(old(k)@.vreg_allocs, dst, 8, dst, 4);
        lemma_v_grouped_part(old(k)@.vreg_allocs, dst, 8, v_plus(dst, 4), 4);
    }
    k.v_add_u32(tmp, base, buf);
    k.ds_load_b128(dst, tmp, offset);
    k.ds_load_b128(v_at(dst, 4), tmp, (offset + 16) as u16);
}

/// Reads the fragments of the right input.
#[verifier::opaque]
pub open spec fn read_wts_part(
    s: KernelState,
    c: Context,
    buf: VReg,
    step: u32,
    n: u32,
) -> KernelState
    decreases n,
{
    if n == 0 {
        s
    } else {
        let i = (n - 1) as u32;
        let s = read_wts_part(s, c, buf, step, i);
        let s = read_frag_part(
            s,
            v_at(c.temps.wt_frags, (8 * i) as u32),
            c.temps.frag,
            c.reads.wt,
            buf,
            (c.p.lds_x + i * 16 * c.p.row_stride + step * 32) as u16,
        );
        s
    }
}

/// Reads the fragments of the right input.
fn read_wts(k: &mut T0Kernel, c: Context, buf: VReg, step: u32, n: u32)
    requires
        ready(old(k)@, 0, 0),
        c.grouped(old(k)@.vreg_allocs),
        n <= 8,
        c.ok(),
        buf.0 <= REG_MAX,
        step < c.p.sub_steps,
        n <= c.p.nct,
    ensures
        final(k)@ == read_wts_part(old(k)@, c, buf, step, n),
        grown(old(k)@, final(k)@, 0, 0),
{
    proof {
        reveal(read_wts_part);
    }
    let mut i: u32 = 0;
    while i < n
        invariant
            i <= n,
            n <= 8,
            ready(old(k)@, 0, 0),
            c.grouped(old(k)@.vreg_allocs),
            c.ok(),
            buf.0 <= REG_MAX,
            step < c.p.sub_steps,
            n <= c.p.nct,
            k@ == read_wts_part(old(k)@, c, buf, step, i),
            grown(old(k)@, k@, 0, 0),
        decreases n - i,
    {
        proof {
            reveal(read_wts_part);
        }
        proof {
            lemma_wt_offset(c.p, i, step);
            lemma_run_at(old(k)@.vreg_allocs, c.temps.wt_frags, 8, c.p.nct, i);
        }
        read_frag(
            k,
            v_at(c.temps.wt_frags, (8 * i) as u32),
            c.temps.frag,
            c.reads.wt,
            buf,
            (c.p.lds_x + i * 16 * c.p.row_stride + step * 32) as u16,
        );
        i = i + 1;
    }
}

/// Multiplies the first row block, each column as soon as its fragment is there.
#[verifier::opaque]
pub open spec fn first_products_part(s: KernelState, c: Context, n: u32) -> KernelState
    decreases n,
{
    if n == 0 {
        s
    } else {
        let i = (n - 1) as u32;
        let s = first_products_part(s, c, i);
        let s = s.with_op(OpOf::WaitLgkmcnt((2 * (c.p.nct - 1 - i)) as u8));
        let s = s.with_op(
            OpOf::Wmma {
                dst: v_at(c.acc, (8 * i) as u32),
                a: c.temps.x_frags,
                b: v_at(c.temps.wt_frags, (8 * i) as u32),
                c: v_at(c.acc, (8 * i) as u32),
                format: WmmaFormat::BF16_F32,
            },
        );
        s
    }
}

/// Multiplies the first row block, each column as soon as its fragment is there.
fn first_products(k: &mut T0Kernel, c: Context, n: u32)
    requires
        ready(old(k)@, 0, 0),
        c.grouped(old(k)@.vreg_allocs),
        n <= 8,
        c.ok(),
        n <= c.p.nct,
    ensures
        final(k)@ == first_products_part(old(k)@, c, n),
        grown(old(k)@, final(k)@, 0, 0),
{
    proof {
        reveal(first_products_part);
    }
    let mut i: u32 = 0;
    while i < n
        invariant
            i <= n,
            n <= 8,
            ready(old(k)@, 0, 0),
            c.grouped(old(k)@.vreg_allocs),
            c.ok(),
            n <= c.p.nct,
            k@ == first_products_part(old(k)@, c, i),
            grown(old(k)@, k@, 0, 0),
        decreases n - i,
    {
        proof {
            reveal(first_products_part);
        }
        proof {
            let va = old(k)@.vreg_allocs;
            lemma_acc_index(c.p, 0, i);
            assert(i < c.p.nrb * c.p.nct) by (nonlinear_arith)
                requires
                    i < c.p.nct,
                    c.p.nrb >= 1,
            ;
            lemma_acc_count(c.p);
            lemma_run_at(va, c.acc, 8, (c.p.nrb * c.p.nct) as u32, i);
            lemma_run_at(va, c.temps.wt_frags, 8, c.p.nct, i);
            lemma_run_at(va, c.temps.x_frags, 8, c.p.nrb, 0);
        }
        k.wait_lgkmcnt((2 * (c.p.nct - 1 - i)) as u8);
        k.wmma_bf16_f32(
            v_at(c.acc, (8 * i) as u32),
            c.temps.x_frags,
            v_at(c.temps.wt_frags, (8 * i) as u32),
            v_at(c.acc, (8 * i) as u32),
        );
        i = i + 1;
    }
}

/// Multiplies one row block.
#[verifier::opaque]
pub open spec fn row_products_part(s: KernelState, c: Context, row: u32, n: u32) -> KernelState
    decreases n,
{
    if n == 0 {
        s
    } else {
        let i = (n - 1) as u32;
        let s = row_products_part(s, c, row, i);
        let s = s.with_op(
            OpOf::Wmma {
                dst: v_at(c.acc, ((row * c.p.nct + i) * 8) as u32),
                a: v_at(c.temps.x_frags, (8 * row) as u32),
                b: v_at(c.temps.wt_frags, (8 * i) as u32),
                c: v_at(c.acc, ((row * c.p.nct + i) * 8) as u32),
                format: WmmaFormat::BF16_F32,
            },
        );
        s
    }
}

/// Multiplies one row block.
fn row_products(k: &mut T0Kernel, c: Context, row: u32, n: u32)
    requires
        ready(old(k)@, 0, 0),
        c.grouped(old(k)@.vreg_allocs),
        n <= 8,
        c.ok(),
        row < c.p.nrb,
        n <= c.p.nct,
    ensures
        final(k)@ == row_products_part(old(k)@, c, row, n),
        grown(old(k)@, final(k)@, 0, 0),
{
    proof {
        reveal(row_products_part);
    }
    let mut i: u32 = 0;
    while i < n
        invariant
            i <= n,
            n <= 8,
            ready(old(k)@, 0, 0),
            c.grouped(old(k)@.vreg_allocs),
            c.ok(),
            row < c.p.nrb,
            n <= c.p.nct,
            k@ == row_products_part(old(k)@, c, row, i),
            grown(old(k)@, k@, 0, 0),
        decreases n - i,
    {
        proof {
            reveal(row_products_part);
        }
        proof {
            lemma_acc_index(c.p, row, i);
            let va = old(k)@.vreg_allocs;
            assert(0 <= row * c.p.nct + i < c.p.nrb * c.p.nct) by (nonlinear_arith)
                requires
                    0 <= row < c.p.nrb,
                    0 <= i < c.p.nct,
            ;
            lemma_acc_count(c.p);
            lemma_run_at(
                va,
                c.acc,
                8,
                (c.p.nrb * c.p.nct) as u32,
                (row * c.p.nct + i) as u32,
            );
            lemma_run_at(va, c.temps.wt_frags, 8, c.p.nct, i);
            lemma_run_at(va, c.temps.x_frags, 8, c.p.nrb, row);
        }
        k.wmma_bf16_f32(
            v_at(c.acc, ((row * c.p.nct + i) * 8) as u32),
            v_at(c.temps.x_frags, (8 * row) as u32),
            v_at(c.temps.wt_frags, (8 * i) as u32),
            v_at(c.acc, ((row * c.p.nct + i) * 8) as u32),
        );
        i = i + 1;
    }
}

/// Reads and multiplies the row blocks behind the first.
#[verifier::opaque]
pub open spec fn later_rows_part(
    s: KernelState,
    c: Context,
    buf: VReg,
    step: u32,
    n: u32,
) -> KernelState
    decreases n,
{
    if n == 0 {
        s
    } else {
        let i = (n - 1) as u32;
        let s = later_rows_part(s, c, buf, step, i);
        let s = read_frag_part(
            s,
            v_at(c.temps.x_frags, (8 * (i + 1)) as u32),
            c.temps.frag,
            v_at(c.reads.x, (i + 1) as u32),
            buf,
            (step * 32) as u16,
        );
        let s = s.with_op(OpOf::WaitLgkmcnt(0));
        let s = row_products_part(s, c, (i + 1) as u32, c.p.nct);
        s
    }
}

/// Reads and multiplies the row blocks behind the first.
fn later_rows(k: &mut T0Kernel, c: Context, buf: VReg, step: u32, n: u32)
    requires
        ready(old(k)@, 0, 0),
        c.grouped(old(k)@.vreg_allocs),
        n <= 3,
        c.ok(),
        buf.0 <= REG_MAX,
        step < c.p.sub_steps,
        n + 1 <= c.p.nrb,
    ensures
        final(k)@ == later_rows_part(old(k)@, c, buf, step, n),
        grown(old(k)@, final(k)@, 0, 0),
{
    proof {
        reveal(later_rows_part);
    }
    let mut i: u32 = 0;
    while i < n
        invariant
            i <= n,
            n <= 3,
            ready(old(k)@, 0, 0),
            c.grouped(old(k)@.vreg_allocs),
            c.ok(),
            buf.0 <= REG_MAX,
            step < c.p.sub_steps,
            n + 1 <= c.p.nrb,
            k@ == later_rows_part(old(k)@, c, buf, step, i),
            grown(old(k)@, k@, 0, 0),
        decreases n - i,
    {
        proof {
            reveal(later_rows_part);
        }
        proof {
            lemma_run_at(old(k)@.vreg_allocs, c.temps.x_frags, 8, c.p.nrb, (i + 1) as u32);
        }
        read_frag(
            k,
            v_at(c.temps.x_frags, (8 * (i + 1)) as u32),
            c.temps.frag,
            v_at(c.reads.x, (i + 1) as u32),
            buf,
            (step * 32) as u16,
        );
        k.wait_lgkmcnt(0);
        row_products(k, c, (i + 1) as u32, c.p.nct);
        i = i + 1;
    }
}

/// Multiplies what a buffer holds into the sums.
#[verifier::opaque]
pub open spec fn products_part(s: KernelState, c: Context, buf: VReg, n: u32) -> KernelState
    decreases n,
{
    if n == 0 {
        s
    } else {
        let i = (n - 1) as u32;
        let s = products_part(s, c, buf, i);
        let s = read_frag_part(s, c.temps.x_frags, c.temps.frag, c.reads.x, buf, (i * 32) as u16);
        let s = read_wts_part(s, c, buf, i, c.p.nct);
        let s = first_products_part(s, c, c.p.nct);
        let s = later_rows_part(s, c, buf, i, (c.p.nrb - 1) as u32);
        s
    }
}

/// Multiplies what a buffer holds into the sums.
fn products(k: &mut T0Kernel, c: Context, buf: VReg, n: u32)
    requires
        ready(old(k)@, 0, 0),
        c.grouped(old(k)@.vreg_allocs),
        n <= 4,
        c.ok(),
        buf.0 <= REG_MAX,
        n <= c.p.sub_steps,
    ensures
        final(k)@ == products_part(old(k)@, c, buf, n),
        grown(old(k)@, final(k)@, 0, 0),
{
    proof {
        reveal(products_part);
    }
    let mut i: u32 = 0;
    while i < n
        invariant
            i <= n,
            n <= 4,
            ready(old(k)@, 0, 0),
            c.grouped(old(k)@.vreg_allocs),
            c.ok(),
            buf.0 <= REG_MAX,
            n <= c.p.sub_steps,
            k@ == products_part(old(k)@, c, buf, i),
            grown(old(k)@, k@, 0, 0),
        decreases n - i,
    {
        proof {
            reveal(products_part);
        }
        proof {
            lemma_run_at(old(k)@.vreg_allocs, c.temps.x_frags, 8, c.p.nrb, 0);
        }
        read_frag(k, c.temps.x_frags, c.temps.frag, c.reads.x, buf, (i * 32) as u16);
        read_wts(k, c, buf, i, c.p.nct);
        first_products(k, c, c.p.nct);
        later_rows(k, c, buf, i, (c.p.nrb - 1) as u32);
        i = i + 1;
    }
}

/// Puts loaded inputs in a buffer, waits for the other waves and moves on along K.
#[verifier::opaque]
pub open spec fn fill_part(s: KernelState, c: Context, buf: VReg) -> KernelState {
    let s = s.with_op(OpOf::WaitVmcnt(0));
    let s = lds_store_part(s, c, buf);
    let s = s.with_op(OpOf::WaitLgkmcnt(0));
    let s = s.with_op(OpOf::SBarrier);
    let s = s.with_op(
        OpOf::VAddU32 {
            dst: c.st.k_off,
            src0: Operand::VReg(c.st.k_off),
            src1: Operand::InlineInt((c.p.tile_k * 2) as i32),
        },
    );
    let s = s.with_op(
        OpOf::SAddU32 {
            dst: c.st.k_iter,
            src0: c.st.k_iter,
            src1: SOperand::InlineInt(c.p.tile_k as i32),
        },
    );
    s
}

/// Puts loaded inputs in a buffer, waits for the other waves and moves on along K.
fn fill(k: &mut T0Kernel, c: Context, buf: VReg)
    requires
        ready(old(k)@, 0, 0),
        c.grouped(old(k)@.vreg_allocs),
        c.ok(),
        buf.0 <= REG_MAX,
    ensures
        final(k)@ == fill_part(old(k)@, c, buf),
        grown(old(k)@, final(k)@, 0, 0),
{
    proof {
        reveal(fill_part);
    }
    k.wait_vmcnt(0);
    lds_store(k, c, buf);
    k.wait_lgkmcnt(0);
    k.s_barrier();
    k.push(
        OpOf::VAddU32 {
            dst: c.st.k_off,
            src0: Operand::VReg(c.st.k_off),
            src1: Operand::InlineInt((c.p.tile_k * 2) as i32),
        },
    );
    k.s_add_u32(c.st.k_iter, c.st.k_iter, c.p.tile_k as i32);
}

/// Loads the next inputs, multiplies a buffer meanwhile, and fills the other one.
#[verifier::opaque]
pub open spec fn load_compute_fill_part(
    s: KernelState,
    c: Context,
    busy: VReg,
    idle: VReg,
) -> KernelState {
    let s = gmem_load_part(s, c);
    let s = products_part(s, c, busy, c.p.sub_steps);
    let s = fill_part(s, c, idle);
    s
}

/// Loads the next inputs, multiplies a buffer meanwhile, and fills the other one.
fn load_compute_fill(k: &mut T0Kernel, c: Context, busy: VReg, idle: VReg)
    requires
        ready(old(k)@, 0, 0),
        c.grouped(old(k)@.vreg_allocs),
        c.ok(),
        busy.0 <= REG_MAX,
        idle.0 <= REG_MAX,
    ensures
        final(k)@ == load_compute_fill_part(old(k)@, c, busy, idle),
        grown(old(k)@, final(k)@, 0, 0),
{
    proof {
        reveal(load_compute_fill_part);
    }
    gmem_load(k, c);
    products(k, c, busy, c.p.sub_steps);
    fill(k, c, idle);
}
// ── Behind the loop ──
/// Computes what all stores share.
#[verifier::opaque]
pub open spec fn store_regs_part(s: KernelState, c: Context) -> (KernelState, StoreRegs) {
    let lane_half = VReg(s.next_vreg as u32);
    let s = s.with_vregs(1, Alignment::Align1);
    let s = s.with_op(OpOf::VLshrrevB32 { dst: lane_half, shift: 4, src: c.thread.lane_id });
    let n_vreg = VReg(s.next_vreg as u32);
    let s = s.with_vregs(1, Alignment::Align1);
    let s = s.with_op(OpOf::VMovFromSgpr { dst: n_vreg, src: c.args.n_dim });
    let row_stride = VReg(s.next_vreg as u32);
    let s = s.with_vregs(1, Alignment::Align1);
    let s = s.with_op(OpOf::VLshlrevB32 { dst: row_stride, shift: 3, src: n_vreg });
    let col_base = VReg(s.next_vreg as u32);
    let s = s.with_vregs(1, Alignment::Align1);
    let s = s.with_op(OpOf::VMovFromSgpr { dst: col_base, src: c.rows.base_n });
    let s = s.with_op(
        OpOf::VAddU32 {
            dst: col_base,
            src0: Operand::VReg(col_base),
            src1: Operand::VReg(c.thread.lane_row),
        },
    );
    let col_bytes = VReg(s.next_vreg as u32);
    let s = s.with_vregs(1, Alignment::Align1);
    let s = s.with_op(OpOf::VLshlrevB32 { dst: col_bytes, shift: 2, src: col_base });
    (s, StoreRegs { lane_half, n_vreg, row_stride, col_bytes })
}

/// Computes what all stores share.
fn store_regs(k: &mut T0Kernel, c: Context) -> (r: StoreRegs)
    requires
        ready(old(k)@, 5, 0),
        c.ok(),
    ensures
        (final(k)@, r) == store_regs_part(old(k)@, c),
        grown(old(k)@, final(k)@, 5, 0),
        r.ok(),
{
    proof {
        reveal(store_regs_part);
    }
    let lane_half = k.alloc_vreg();
    k.v_lshrrev_b32(lane_half, 4, c.thread.lane_id);
    let n_vreg = k.alloc_vreg();
    k.v_mov_from_sgpr(n_vreg, c.args.n_dim);
    let row_stride = k.alloc_vreg();
    k.v_lshlrev_b32(row_stride, 3, n_vreg);
    let col_base = k.alloc_vreg();
    k.v_mov_from_sgpr(col_base, c.rows.base_n);
    k.v_add_u32(col_base, col_base, c.thread.lane_row);
    let col_bytes = k.alloc_vreg();
    k.v_lshlrev_b32(col_bytes, 2, col_base);
    StoreRegs { lane_half, n_vreg, row_stride, col_bytes }
}

/// Loads the bias of the column that a lane stores.
#[verifier::opaque]
pub open spec fn load_bias_part(
    s: KernelState,
    c: Context,
    bias: SRegPair,
    col: u32,
) -> (KernelState, VReg) {
    let value = VReg(s.next_vreg as u32);
    let s = s.with_vregs(1, Alignment::Align1);
    let addr = VReg(s.next_vreg as u32);
    let s = s.with_vregs(2, Alignment::Align2);
    let s = s.with_op(OpOf::VMovFromSgpr { dst: addr, src: SReg(bias.0) });
    let s = s.with_op(OpOf::VMovFromSgpr { dst: v_at(addr, 1), src: s_at(SReg(bias.0), 1) });
    let bias_col = VReg(s.next_vreg as u32);
    let s = s.with_vregs(1, Alignment::Align1);
    let s = s.with_op(OpOf::VMovFromSgpr { dst: bias_col, src: c.rows.base_n });
    let s = s.with_op(
        OpOf::VAddU32 {
            dst: bias_col,
            src0: Operand::VReg(bias_col),
            src1: Operand::VReg(c.thread.lane_row),
        },
    );
    let s = if col > 0 {
        let s = s.with_op(
            OpOf::VAddU32 {
                dst: bias_col,
                src0: Operand::VReg(bias_col),
                src1: Operand::InlineInt((col * 16) as i32),
            },
        );
        s
    } else {
        s
    };
    let byte_off = VReg(s.next_vreg as u32);
    let s = s.with_vregs(1, Alignment::Align1);
    let s = s.with_op(OpOf::VLshlrevB32 { dst: byte_off, shift: 2, src: bias_col });
    let s = s.with_op(OpOf::VAddCo { dst: addr, src0: addr, src1: byte_off });
    let s = s.with_op(OpOf::VAddCoCi { dst: v_at(addr, 1), src: v_at(addr, 1) });
    let s = s.with_op(OpOf::GlobalLoad { dst: value, addr, width: Width::B32, offset: 0 });
    let s = s.with_op(OpOf::WaitVmcnt(0));
    (s, value)
}

/// Loads the bias of the column that a lane stores.
fn load_bias(k: &mut T0Kernel, c: Context, bias: SRegPair, col: u32) -> (r: VReg)
    requires
        ready(old(k)@, 5, 0),
        c.ok(),
        bias.0 <= SREG_MAX,
        col < 8,
    ensures
        (final(k)@, r) == load_bias_part(old(k)@, c, bias, col),
        grown(old(k)@, final(k)@, 5, 0),
        r.0 <= REG_LIMIT,
{
    proof {
        reveal(load_bias_part);
    }
    let value = k.alloc_vreg();
    let addr = k.alloc_vreg_array(2, Alignment::Align2);
    k.v_mov_from_sgpr(addr, SReg(bias.0));
    k.v_mov_from_sgpr(v_at(addr, 1), s_at(SReg(bias.0), 1));
    let bias_col = k.alloc_vreg();
    k.v_mov_from_sgpr(bias_col, c.rows.base_n);
    k.v_add_u32(bias_col, bias_col, c.thread.lane_row);
    if col > 0 {
        k.push(
            OpOf::VAddU32 {
                dst: bias_col,
                src0: Operand::VReg(bias_col),
                src1: Operand::InlineInt((col * 16) as i32),
            },
        );
    }
    let byte_off = k.alloc_vreg();
    k.v_lshlrev_b32(byte_off, 2, bias_col);
    k.v_add_co(addr, addr, byte_off);
    k.v_add_co_ci(v_at(addr, 1), v_at(addr, 1));
    k.global_load(value, addr, Width::B32, 0);
    k.wait_vmcnt(0);
    value
}

/// Finishes and stores the values of one lane and column, two rows apart.
#[verifier::opaque]
pub open spec fn store_values_part(
    s: KernelState,
    c: Context,
    regs: StoreRegs,
    addr: VReg,
    first: VReg,
    bias: Option<VReg>,
    n: u32,
) -> KernelState
    decreases n,
{
    if n == 0 {
        s
    } else {
        let i = (n - 1) as u32;
        let s = store_values_part(s, c, regs, addr, first, bias, i);
        let s = match bias {
            Some(bv) => {
                let s = s.with_op(
                    OpOf::VAddF32 {
                        dst: v_at(first, i),
                        src0: Operand::VReg(v_at(first, i)),
                        src1: Operand::VReg(bv),
                    },
                );
                s
            },
            None => {
                s
            },
        };
        let s = if c.p.relu {
            let s = s.with_op(
                OpOf::VMaxF32 {
                    dst: v_at(first, i),
                    src0: Operand::VReg(v_at(first, i)),
                    src1: Operand::InlineFloat(0),
                },
            );
            s
        } else {
            s
        };
        let s = s.with_op(
            OpOf::GlobalStore { addr, src: v_at(first, i), width: Width::B32, offset: 0 },
        );
        let s = if i < 7 {
            let s = s.with_op(OpOf::VAddCo { dst: addr, src0: addr, src1: regs.row_stride });
            let s = s.with_op(OpOf::VAddCoCi { dst: v_at(addr, 1), src: v_at(addr, 1) });
            s
        } else {
            s
        };
        s
    }
}

/// Finishes and stores the values of one lane and column, two rows apart.
fn store_values(
    k: &mut T0Kernel,
    c: Context,
    regs: StoreRegs,
    addr: VReg,
    first: VReg,
    bias: Option<VReg>,
    n: u32,
)
    requires
        ready(old(k)@, 0, 0),
        v_grouped(old(k)@.vreg_allocs, addr, 2),
        n <= 8,
        c.ok(),
        regs.ok(),
        addr.0 <= REG_MAX,
        first.0 <= REG_MAX,
    ensures
        final(k)@ == store_values_part(old(k)@, c, regs, addr, first, bias, n),
        grown(old(k)@, final(k)@, 0, 0),
{
    proof {
        reveal(store_values_part);
    }
    let mut i: u32 = 0;
    while i < n
        invariant
            i <= n,
            n <= 8,
            ready(old(k)@, 0, 0),
            v_grouped(old(k)@.vreg_allocs, addr, 2),
            c.ok(),
            regs.ok(),
            addr.0 <= REG_MAX,
            first.0 <= REG_MAX,
            k@ == store_values_part(old(k)@, c, regs, addr, first, bias, i),
            grown(old(k)@, k@, 0, 0),
        decreases n - i,
    {
        proof {
            reveal(store_values_part);
        }
        match bias {
            Some(bv) => {
                k.push(
                    OpOf::VAddF32 {
                        dst: v_at(first, i),
                        src0: Operand::VReg(v_at(first, i)),
                        src1: Operand::VReg(bv),
                    },
                );
            },
            None => {
            },
        }
        if c.p.relu {
            k.push(
                OpOf::VMaxF32 {
                    dst: v_at(first, i),
                    src0: Operand::VReg(v_at(first, i)),
                    src1: Operand::InlineFloat(0),
                },
            );
        }
        k.global_store(addr, v_at(first, i), Width::B32, 0);
        if i < 7 {
            k.v_add_co(addr, addr, regs.row_stride);
            k.v_add_co_ci(v_at(addr, 1), v_at(addr, 1));
        }
        i = i + 1;
    }
}
/// Loads the bias of a column where there is one.
#[verifier::opaque]
pub open spec fn bias_value_part(s: KernelState, c: Context, col: u32) -> (
    KernelState,
    Option<VReg>,
) {
    match c.args.bias {
        Some(bias) => {
            let (s, value) = load_bias_part(s, c, bias, col);
            (s, Some(value))
        },
        None => (s, None),
    }
}

/// Loads the bias of a column where there is one.
fn bias_value(k: &mut T0Kernel, c: Context, col: u32) -> (r: Option<VReg>)
    requires
        ready(old(k)@, 6, 0),
        c.ok(),
        col < 8,
    ensures
        (final(k)@, r) == bias_value_part(old(k)@, c, col),
        grown(old(k)@, final(k)@, 6, 0),
{
    proof {
        reveal(bias_value_part);
    }
    match c.args.bias {
        Some(bias) => Some(load_bias(k, c, bias, col)),
        None => None,
    }
}

/// Stores the columns of one row block.
#[verifier::opaque]
pub open spec fn store_cols_part(
    s: KernelState,
    c: Context,
    regs: StoreRegs,
    y_base: VReg,
    row: u32,
    n: u32,
) -> KernelState
    decreases n,
{
    if n == 0 {
        s
    } else {
        let i = (n - 1) as u32;
        let s = store_cols_part(s, c, regs, y_base, row, i);
        let (s, bias) = bias_value_part(s, c, i);
        let addr = VReg(s.next_vreg as u32);
        let s = s.with_vregs(2, Alignment::Align2);
        let low = if i > 0 {
            Operand::InlineInt((i * 64) as i32)
        } else {
            Operand::VReg(y_base)
        };
        let s = s.with_op(OpOf::VMov { dst: addr, src: low });
        let s = s.with_op(OpOf::VMov { dst: v_at(addr, 1), src: Operand::VReg(v_at(y_base, 1)) });
        let s = if i > 0 {
            let s = s.with_op(OpOf::VAddCo { dst: addr, src0: addr, src1: y_base });
            let s = s.with_op(OpOf::VAddCoCi { dst: v_at(addr, 1), src: v_at(addr, 1) });
            s
        } else {
            s
        };
        let s = store_values_part(
            s,
            c,
            regs,
            addr,
            v_at(c.acc, ((row * c.p.nct + i) * 8) as u32),
            bias,
            8,
        );
        s
    }
}

/// Stores the columns of one row block.
fn store_cols(k: &mut T0Kernel, c: Context, regs: StoreRegs, y_base: VReg, row: u32, n: u32)
    requires
        ready(old(k)@, 64, 0),
        n <= 8,
        c.ok(),
        regs.ok(),
        y_base.0 <= REG_MAX,
        row < c.p.nrb,
        n <= c.p.nct,
    ensures
        final(k)@ == store_cols_part(old(k)@, c, regs, y_base, row, n),
        grown(old(k)@, final(k)@, 64, 0),
{
    proof {
        reveal(store_cols_part);
    }
    let mut i: u32 = 0;
    while i < n
        invariant
            i <= n,
            n <= 8,
            ready(old(k)@, 64, 0),
            c.ok(),
            regs.ok(),
            y_base.0 <= REG_MAX,
            row < c.p.nrb,
            n <= c.p.nct,
            k@ == store_cols_part(old(k)@, c, regs, y_base, row, i),
            grown(old(k)@, k@, 8 * i as nat, 0),
        decreases n - i,
    {
        proof {
            reveal(store_cols_part);
        }
        let bias = bias_value(k, c, i);
        let addr = k.alloc_vreg_array(2, Alignment::Align2);
        if i > 0 {
            k.v_mov_imm(addr, (i * 64) as i32);
        } else {
            k.v_mov(addr, y_base);
        }
        k.v_mov(v_at(addr, 1), v_at(y_base, 1));
        if i > 0 {
            k.v_add_co(addr, addr, y_base);
            k.v_add_co_ci(v_at(addr, 1), v_at(addr, 1));
        }
        proof {
            lemma_acc_index(c.p, row, i);
        }
        store_values(k, c, regs, addr, v_at(c.acc, ((row * c.p.nct + i) * 8) as u32), bias, 8);
        i = i + 1;
    }
}

/// Stores the row blocks.
#[verifier::opaque]
pub open spec fn store_rows_part(s: KernelState, c: Context, regs: StoreRegs, n: u32) -> KernelState
    decreases n,
{
    if n == 0 {
        s
    } else {
        let i = (n - 1) as u32;
        let s = store_rows_part(s, c, regs, i);
        let base_row = VReg(s.next_vreg as u32);
        let s = s.with_vregs(1, Alignment::Align1);
        let s = s.with_op(OpOf::VMovFromSgpr { dst: base_row, src: row_base(c.rows, i) });
        let s = s.with_op(
            OpOf::VAddU32 {
                dst: base_row,
                src0: Operand::VReg(base_row),
                src1: Operand::VReg(regs.lane_half),
            },
        );
        let row_bytes = VReg(s.next_vreg as u32);
        let s = s.with_vregs(1, Alignment::Align1);
        let s = s.with_op(OpOf::VMulLoU32 { dst: row_bytes, src0: base_row, src1: regs.n_vreg });
        let s = s.with_op(OpOf::VLshlrevB32 { dst: row_bytes, shift: 2, src: row_bytes });
        let y_base = VReg(s.next_vreg as u32);
        let s = s.with_vregs(2, Alignment::Align2);
        let s = s.with_op(OpOf::VMovFromSgpr { dst: y_base, src: SReg(c.args.y_ptr.0) });
        let s = s.with_op(
            OpOf::VMovFromSgpr { dst: v_at(y_base, 1), src: s_at(SReg(c.args.y_ptr.0), 1) },
        );
        let y_off = VReg(s.next_vreg as u32);
        let s = s.with_vregs(1, Alignment::Align1);
        let s = s.with_op(OpOf::VMovFromSgpr { dst: y_off, src: c.tile.y_offset });
        let s = s.with_op(OpOf::VAddCo { dst: y_base, src0: y_base, src1: y_off });
        let s = s.with_op(OpOf::VAddCoCi { dst: v_at(y_base, 1), src: v_at(y_base, 1) });
        let s = s.with_op(OpOf::VAddCo { dst: y_base, src0: y_base, src1: row_bytes });
        let s = s.with_op(OpOf::VAddCoCi { dst: v_at(y_base, 1), src: v_at(y_base, 1) });
        let s = s.with_op(OpOf::VAddCo { dst: y_base, src0: y_base, src1: regs.col_bytes });
        let s = s.with_op(OpOf::VAddCoCi { dst: v_at(y_base, 1), src: v_at(y_base, 1) });
        let s = store_cols_part(s, c, regs, y_base, i, c.p.nct);
        s
    }
}

/// Stores the row blocks.
fn store_rows(k: &mut T0Kernel, c: Context, regs: StoreRegs, n: u32)
    requires
        ready(old(k)@, 276, 0),
        n <= 4,
        c.ok(),
        regs.ok(),
        n <= c.p.nrb,
    ensures
        final(k)@ == store_rows_part(old(k)@, c, regs, n),
        grown(old(k)@, final(k)@, 276, 0),
{
    proof {
        reveal(store_rows_part);
    }
    let mut i: u32 = 0;
    while i < n
        invariant
            i <= n,
            n <= 4,
            ready(old(k)@, 276, 0),
            c.ok(),
            regs.ok(),
            n <= c.p.nrb,
            k@ == store_rows_part(old(k)@, c, regs, i),
            grown(old(k)@, k@, 69 * i as nat, 0),
        decreases n - i,
    {
        proof {
            reveal(store_rows_part);
        }
        let base_row = k.alloc_vreg();
        k.v_mov_from_sgpr(base_row, row_base(c.rows, i));
        k.v_add_u32(base_row, base_row, regs.lane_half);
        let row_bytes = k.alloc_vreg();
        k.v_mul_lo_u32(row_bytes, base_row, regs.n_vreg);
        k.v_lshlrev_b32(row_bytes, 2, row_bytes);
        let y_base = k.alloc_vreg_array(2, Alignment::Align2);
        k.v_mov_from_sgpr(y_base, SReg(c.args.y_ptr.0));
        k.v_mov_from_sgpr(v_at(y_base, 1), s_at(SReg(c.args.y_ptr.0), 1));
        let y_off = k.alloc_vreg();
        k.v_mov_from_sgpr(y_off, c.tile.y_offset);
        k.v_add_co(y_base, y_base, y_off);
        k.v_add_co_ci(v_at(y_base, 1), v_at(y_base, 1));
        k.v_add_co(y_base, y_base, row_bytes);
        k.v_add_co_ci(v_at(y_base, 1), v_at(y_base, 1));
        k.v_add_co(y_base, y_base, regs.col_bytes);
        k.v_add_co_ci(v_at(y_base, 1), v_at(y_base, 1));
        assert(extends(old(k)@.vreg_allocs, k@.vreg_allocs));
        store_cols(k, c, regs, y_base, i, c.p.nct);
        i = i + 1;
    }
}
// ── All together ──
/// Hands out the sums and clears them.
#[verifier::opaque]
pub open spec fn accumulators_part(s: KernelState, p: Plan) -> (KernelState, VReg) {
    let acc = first_vreg(s, (p.nrb * p.nct) as u32);
    let s = groups8_part(s, (p.nrb * p.nct) as u32);
    let s = zeros_part(s, acc, (p.nrb * p.nct * 8) as u32);
    (s, acc)
}

/// Hands out the sums and clears them.
fn accumulators(k: &mut T0Kernel, p: Plan) -> (r: VReg)
    requires
        ready(old(k)@, 256, 0),
        p.ok(),
    ensures
        (final(k)@, r) == accumulators_part(old(k)@, p),
        grown(old(k)@, final(k)@, 256, 0),
        r.0 <= REG_LIMIT,
        runs(final(k)@.vreg_allocs, r, 8, (p.nrb * p.nct) as u32),
{
    proof {
        reveal(accumulators_part);
    }
    proof {
        lemma_acc_count(p);
    }
    let acc = groups8(k, (p.nrb * p.nct) as u32);
    zeros(k, acc, (p.nrb * p.nct * 8) as u32);
    acc
}

/// Everything in front of the loop.
#[verifier::opaque]
pub open spec fn context_part(s: KernelState, p: Plan) -> (KernelState, Context) {
    let (s, args) = declare_args_part(s, p);
    let (s, tile) = tile_ids_part(s, p, args);
    let (s, thread) = thread_ids_part(s);
    let (s, acc) = accumulators_part(s, p);
    let (s, rows) = row_bases_part(s, p, tile, thread.wave_id);
    let k_vreg = VReg(s.next_vreg as u32);
    let s = s.with_vregs(1, Alignment::Align1);
    let s = s.with_op(OpOf::VMovFromSgpr { dst: k_vreg, src: args.k_dim });
    let (s, x) = x_source_part(s, p, args.x_ptr, tile.tile_row, k_vreg);
    let (s, wt) = wt_source_part(s, p, args.wt_ptr, rows.base_n, k_vreg);
    let (s, reads) = read_addrs_part(s, p, thread);
    let (s, temps) = temps_part(s, p);
    let (s, x_stride) = pass_stride_part(s, p, k_vreg);
    let (s, wt_stride) = pass_stride_part(s, p, k_vreg);
    let (s, st) = loop_state_part(s, p, tile.k_start);
    (s, Context { p, args, tile, thread, acc, rows, x, wt, reads, temps, x_stride, wt_stride, st })
}

/// Registers that were handed out together stay so.
proof fn lemma_temps_extend(t: Temps, p: Plan, a: Seq<VRegAlloc>, b: Seq<VRegAlloc>)
    requires
        extends(a, b),
        t.grouped(p, a),
    ensures
        t.grouped(p, b),
{
    lemma_runs_extend(a, b, t.gmem_x, 4, p.x_loads);
    lemma_runs_extend(a, b, t.gmem_wt, 4, p.wt_loads);
    lemma_runs_extend(a, b, t.x_frags, 8, p.nrb);
    lemma_runs_extend(a, b, t.wt_frags, 8, p.nct);
    lemma_v_grouped_extends(a, b, t.xa, 2);
    lemma_v_grouped_extends(a, b, t.wa, 2);
}

/// Everything in front of the loop.
fn context(k: &mut T0Kernel, p: Plan) -> (r: Context)
    requires
        ready(old(k)@, 1324, 39),
        p.ok(),
        old(k)@.kernarg_size == 0,
    ensures
        (final(k)@, r) == context_part(old(k)@, p),
        sized(old(k)@, final(k)@, 1324, 39),
        declared(old(k)@, final(k)@, p.bias),
        r.ok(),
        r.grouped(final(k)@.vreg_allocs),
{
    proof {
        reveal(context_part);
    }
    let args = declare_args(k, p);
    let tile = tile_ids(k, p, args);
    let thread = thread_ids(k);
    let acc = accumulators(k, p);
    let ghost v1 = k@.vreg_allocs;
    assert(extends(old(k)@.vreg_allocs, k@.vreg_allocs));
    let rows = row_bases(k, p, tile, thread.wave_id);
    assert(extends(old(k)@.vreg_allocs, k@.vreg_allocs));
    let k_vreg = k.alloc_vreg();
    k.v_mov_from_sgpr(k_vreg, args.k_dim);
    assert(extends(old(k)@.vreg_allocs, k@.vreg_allocs));
    assert(extends(v1, k@.vreg_allocs));
    let x = x_source(k, p, args.x_ptr, tile.tile_row, k_vreg);
    assert(extends(old(k)@.vreg_allocs, k@.vreg_allocs));
    assert(extends(v1, k@.vreg_allocs));
    let wt = wt_source(k, p, args.wt_ptr, rows.base_n, k_vreg);
    assert(extends(old(k)@.vreg_allocs, k@.vreg_allocs));
    assert(extends(v1, k@.vreg_allocs));
    let reads = read_addrs(k, p, thread);
    assert(extends(old(k)@.vreg_allocs, k@.vreg_allocs));
    assert(extends(v1, k@.vreg_allocs));
    let temps = temps(k, p);
    assert(extends(old(k)@.vreg_allocs, k@.vreg_allocs));
    assert(extends(v1, k@.vreg_allocs));
    let ghost v2 = k@.vreg_allocs;
    let x_stride = pass_stride(k, p, k_vreg);
    assert(extends(old(k)@.vreg_allocs, k@.vreg_allocs));
    assert(extends(v1, k@.vreg_allocs));
    let wt_stride = pass_stride(k, p, k_vreg);
    assert(extends(old(k)@.vreg_allocs, k@.vreg_allocs));
    assert(extends(v1, k@.vreg_allocs));
    let st = loop_state(k, p, tile.k_start);
    proof {
        let va = k@.vreg_allocs;
        lemma_runs_extend(v1, va, acc, 8, (p.nrb * p.nct) as u32);
        lemma_temps_extend(temps, p, v2, va);
    }
    Context { p, args, tile, thread, acc, rows, x, wt, reads, temps, x_stride, wt_stride, st }
}

/// The turns of the loop over K: two buffers take turns, one multiplied while the other is filled.
#[verifier::opaque]
pub open spec fn loop_turns_part(
    s: KernelState,
    c: Context,
    again: Seq<char>,
    done_a: Seq<char>,
    done_b: Seq<char>,
) -> KernelState {
    let s = gmem_load_part(s, c);
    let s = fill_part(s, c, c.st.buf0);
    let s = s.with_op(OpOf::Label(again));
    let s = s.with_op(OpOf::SCmpGeU32 { src0: c.st.k_iter, src1: c.tile.k_end });
    let s = s.with_op(OpOf::BranchScc1(done_a));
    let s = load_compute_fill_part(s, c, c.st.buf0, c.st.buf1);
    let s = s.with_op(OpOf::SCmpGeU32 { src0: c.st.k_iter, src1: c.tile.k_end });
    let s = s.with_op(OpOf::BranchScc1(done_b));
    let s = load_compute_fill_part(s, c, c.st.buf1, c.st.buf0);
    let s = s.with_op(OpOf::SCmpLtU32 { src0: c.st.k_iter, src1: c.tile.k_end });
    let s = s.with_op(OpOf::BranchScc1(again));
    s
}

/// The turns of the loop over K: two buffers take turns, one multiplied while the other is filled.
fn loop_turns(k: &mut T0Kernel, c: Context, again: &str, done_a: &str, done_b: &str)
    requires
        ready(old(k)@, 0, 0),
        c.grouped(old(k)@.vreg_allocs),
        c.ok(),
    ensures
        final(k)@ == loop_turns_part(old(k)@, c, again@, done_a@, done_b@),
        grown(old(k)@, final(k)@, 0, 0),
{
    proof {
        reveal(loop_turns_part);
    }
    gmem_load(k, c);
    fill(k, c, c.st.buf0);
    k.label(again);
    k.push(OpOf::SCmpGeU32 { src0: c.st.k_iter, src1: c.tile.k_end });
    k.branch_scc1(done_a);
    load_compute_fill(k, c, c.st.buf0, c.st.buf1);
    k.push(OpOf::SCmpGeU32 { src0: c.st.k_iter, src1: c.tile.k_end });
    k.branch_scc1(done_b);
    load_compute_fill(k, c, c.st.buf1, c.st.buf0);
    k.push(OpOf::SCmpLtU32 { src0: c.st.k_iter, src1: c.tile.k_end });
    k.branch_scc1(again);
}

/// What is left when the loop over K ends: one more buffer, either of the two.
#[verifier::opaque]
pub open spec fn loop_ends_part(
    s: KernelState,
    c: Context,
    done_a: Seq<char>,
    done_b: Seq<char>,
    store: Seq<char>,
) -> KernelState {
    let s = s.with_op(OpOf::Label(done_a));
    let s = products_part(s, c, c.st.buf0, c.p.sub_steps);
    let s = s.with_op(OpOf::SMov { dst: c.st.k_iter, src: SOperand::InlineInt(0) });
    let s = s.with_op(OpOf::SCmpEqU32 { src0: c.st.k_iter, src1: SOperand::InlineInt(0) });
    let s = s.with_op(OpOf::BranchScc1(store));
    let s = s.with_op(OpOf::Label(done_b));
    let s = products_part(s, c, c.st.buf1, c.p.sub_steps);
    let s = s.with_op(OpOf::Label(store));
    s
}

/// What is left when the loop over K ends: one more buffer, either of the two.
fn loop_ends(k: &mut T0Kernel, c: Context, done_a: &str, done_b: &str, store: &str)
    requires
        ready(old(k)@, 0, 0),
        c.grouped(old(k)@.vreg_allocs),
        c.ok(),
    ensures
        final(k)@ == loop_ends_part(old(k)@, c, done_a@, done_b@, store@),
        grown(old(k)@, final(k)@, 0, 0),
{
    proof {
        reveal(loop_ends_part);
    }
    k.label(done_a);
    products(k, c, c.st.buf0, c.p.sub_steps);
    k.s_mov_imm(c.st.k_iter, 0);
    k.push(OpOf::SCmpEqU32 { src0: c.st.k_iter, src1: SOperand::InlineInt(0) });
    k.branch_scc1(store);
    k.label(done_b);
    products(k, c, c.st.buf1, c.p.sub_steps);
    k.label(store);
}
// ── How much is multiplied ──
/// How many matrix instructions there are.
pub open spec fn wmmas(ops: Seq<OpText>) -> nat {
    count_ops(ops, |op: OpText| op is Wmma)
}

/// One more operation is one more matrix instruction, if it is one.
proof fn lemma_wmmas_push(ops: Seq<OpText>, op: OpText)
    ensures
        wmmas(ops.push(op)) == wmmas(ops) + if op is Wmma {
            1nat
        } else {
            0
        },
{
    assert(ops.push(op).drop_last() =~= ops);
}

/// Reading a fragment multiplies nothing.
proof fn lemma_read_frag_wmmas(
    s: KernelState,
    dst: VReg,
    tmp: VReg,
    base: VReg,
    buf: VReg,
    offset: u16,
)
    ensures
        wmmas(read_frag_part(s, dst, tmp, base, buf, offset).ops) == wmmas(s.ops),
{
    reveal(read_frag_part);
    let a = s.with_op(
        OpOf::VAddU32 { dst: tmp, src0: Operand::VReg(base), src1: Operand::VReg(buf) },
    );
    let b = a.with_op(OpOf::DsLoadB128 { dst, vaddr: tmp, offset });
    let last = OpOf::DsLoadB128 { dst: v_plus(dst, 4), vaddr: tmp, offset: (offset + 16) as u16 };
    lemma_wmmas_push(s.ops, a.ops.last());
    lemma_wmmas_push(a.ops, b.ops.last());
    lemma_wmmas_push(b.ops, last);
}

/// Reading the fragments of the right input multiplies nothing.
proof fn lemma_read_wts_wmmas(s: KernelState, c: Context, buf: VReg, step: u32, n: u32)
    ensures
        wmmas(read_wts_part(s, c, buf, step, n).ops) == wmmas(s.ops),
    decreases n,
{
    reveal(read_wts_part);
    if n > 0 {
        let i = (n - 1) as u32;
        lemma_read_wts_wmmas(s, c, buf, step, i);
        lemma_read_frag_wmmas(
            read_wts_part(s, c, buf, step, i),
            v_plus(c.temps.wt_frags, (8 * i) as u32),
            c.temps.frag,
            c.reads.wt,
            buf,
            (c.p.lds_x + i * 16 * c.p.row_stride + step * 32) as u16,
        );
    }
}

/// The first row block takes one matrix instruction per column tile.
proof fn lemma_first_products_wmmas(s: KernelState, c: Context, n: u32)
    ensures
        wmmas(first_products_part(s, c, n).ops) == wmmas(s.ops) + n,
    decreases n,
{
    reveal(first_products_part);
    if n > 0 {
        let i = (n - 1) as u32;
        lemma_first_products_wmmas(s, c, i);
        let a = first_products_part(s, c, i);
        let b = a.with_op(OpOf::WaitLgkmcnt((2 * (c.p.nct - 1 - i)) as u8));
        lemma_wmmas_push(a.ops, b.ops.last());
        lemma_wmmas_push(b.ops, first_products_part(s, c, n).ops.last());
    }
}

/// So does each other row block.
proof fn lemma_row_products_wmmas(s: KernelState, c: Context, row: u32, n: u32)
    ensures
        wmmas(row_products_part(s, c, row, n).ops) == wmmas(s.ops) + n,
    decreases n,
{
    reveal(row_products_part);
    if n > 0 {
        let i = (n - 1) as u32;
        lemma_row_products_wmmas(s, c, row, i);
        let a = row_products_part(s, c, row, i);
        lemma_wmmas_push(a.ops, row_products_part(s, c, row, n).ops.last());
    }
}

/// The row blocks behind the first.
proof fn lemma_later_rows_wmmas(s: KernelState, c: Context, buf: VReg, step: u32, n: u32)
    ensures
        wmmas(later_rows_part(s, c, buf, step, n).ops) == wmmas(s.ops) + n * c.p.nct,
    decreases n,
{
    reveal(later_rows_part);
    if n > 0 {
        let i = (n - 1) as u32;
        lemma_later_rows_wmmas(s, c, buf, step, i);
        let a = later_rows_part(s, c, buf, step, i);
        let dst = v_plus(c.temps.x_frags, (8 * (i + 1)) as u32);
        let base = v_plus(c.reads.x, (i + 1) as u32);
        let b = read_frag_part(a, dst, c.temps.frag, base, buf, (step * 32) as u16);
        lemma_read_frag_wmmas(a, dst, c.temps.frag, base, buf, (step * 32) as u16);
        let w = b.with_op(OpOf::WaitLgkmcnt(0));
        lemma_wmmas_push(b.ops, w.ops.last());
        lemma_row_products_wmmas(w, c, (i + 1) as u32, c.p.nct);
        assert(n * c.p.nct == i * c.p.nct + c.p.nct) by (nonlinear_arith)
            requires
                n == i + 1,
        ;
    } else {
        assert(n * c.p.nct == 0) by (nonlinear_arith)
            requires
                n == 0,
        ;
    }
}

/// Multiplying a buffer takes one matrix instruction per row block, column tile and step
/// along K.
pub proof fn products_count(s: KernelState, c: Context, buf: VReg, n: u32)
    requires
        c.p.ok(),
    ensures
        wmmas(products_part(s, c, buf, n).ops) == wmmas(s.ops) + n * (c.p.nrb * c.p.nct),
    decreases n,
{
    reveal(products_part);
    let per = c.p.nrb * c.p.nct;
    if n > 0 {
        let i = (n - 1) as u32;
        products_count(s, c, buf, i);
        let a = products_part(s, c, buf, i);
        let b = read_frag_part(
            a,
            c.temps.x_frags,
            c.temps.frag,
            c.reads.x,
            buf,
            (i * 32) as u16,
        );
        lemma_read_frag_wmmas(a, c.temps.x_frags, c.temps.frag, c.reads.x, buf, (i * 32) as u16);
        let w = read_wts_part(b, c, buf, i, c.p.nct);
        lemma_read_wts_wmmas(b, c, buf, i, c.p.nct);
        let f = first_products_part(w, c, c.p.nct);
        lemma_first_products_wmmas(w, c, c.p.nct);
        lemma_later_rows_wmmas(f, c, buf, i, (c.p.nrb - 1) as u32);
        assert((c.p.nrb - 1) * c.p.nct + c.p.nct == per) by (nonlinear_arith)
            requires
                per == c.p.nrb * c.p.nct,
        ;
        assert(n * per == i * per + per) by (nonlinear_arith)
            requires
                n == i + 1,
        ;
    } else {
        assert(n * per == 0) by (nonlinear_arith)
            requires
                n == 0,
        ;
    }
}

/// The loop over K, with its labels numbered on from the last.
pub open spec fn k_loop_part(s: KernelState, c: Context) -> KernelState {
    let again = label_name("ggen_loop"@, s.label_counter);
    let done_a = label_name("ggen_ea"@, s.label_counter + 1);
    let done_b = label_name("ggen_eb"@, s.label_counter + 2);
    let store = label_name("ggen_store"@, s.label_counter + 3);
    let s = KernelState { label_counter: s.label_counter + 4, ..s };
    let s = loop_turns_part(s, c, again, done_a, done_b);
    loop_ends_part(s, c, done_a, done_b, store)
}

/// The loop over K.
fn k_loop(k: &mut T0Kernel, c: Context)
    requires
        ready(old(k)@, 0, 0),
        c.grouped(old(k)@.vreg_allocs),
        c.ok(),
        old(k)@.label_counter + 4 <= u32::MAX,
    ensures
        final(k)@ == k_loop_part(old(k)@, c),
        final(k)@.wf(),
        mask_free(old(k)@.ops) ==> mask_free(final(k)@.ops),
        kernel_settled(old(k)@) ==> kernel_settled(final(k)@),
        final(k)@.vreg_allocs == old(k)@.vreg_allocs,
        final(k)@.next_vreg == old(k)@.next_vreg,
        final(k)@.next_sreg == old(k)@.next_sreg,
        final(k)@.args == old(k)@.args,
        final(k)@.kernarg_size == old(k)@.kernarg_size,
{
    let again = k.make_label("ggen_loop");
    let done_a = k.make_label("ggen_ea");
    let done_b = k.make_label("ggen_eb");
    let store = k.make_label("ggen_store");
    loop_turns(k, c, again.as_str(), done_a.as_str(), done_b.as_str());
    loop_ends(k, c, done_a.as_str(), done_b.as_str(), store.as_str());
}

/// The kernel of a configuration.
pub open spec fn lds_kernel(cfg: GemmConfig) -> KernelState {
    let p = plan_of(cfg);
    let s = KernelState {
        lds_size: (p.lds_buf * 2) as u32,
        wgp_mode: cfg.wgp_mode,
        ..KernelState::empty(config_name(cfg))
    };
    let (s, c) = context_part(s, p);
    let s = k_loop_part(s, c);
    let (s, regs) = store_regs_part(s, c);
    let s = store_rows_part(s, c, regs, c.p.nrb);
    s.with_op(OpOf::WaitVscnt(0)).with_op(OpOf::Endpgm)
}

/// Builds the kernel of a configuration.
pub fn generate_lds_db(cfg: &GemmConfig) -> (r: T0Kernel)
    requires
        generable(*cfg),
    ensures
        r@ == lds_kernel(*cfg),
        r@.wf(),
        validation_error(r@) is None,
        kernel_settled(r@),
        r@.next_sreg <= 39,
        r@.args == gemm_arg_list(cfg.epilogue != EpilogueOp::StoreF32),
        r@.kernarg_size == if cfg.epilogue == EpilogueOp::StoreF32 {
            40nat
        } else {
            48
        },
{
    let p = make_plan(cfg);
    let name = cfg.name();
    let mut kernel = T0Kernel::new(name.as_str());
    kernel.set_lds_size(p.lds_buf * 2);
    kernel.set_wgp_mode(cfg.wgp_mode);
    proof {
        reveal(mask_free);
        reveal(settled);
        reveal(tight);
    }
    let k = &mut kernel;
    let c = context(k, p);
    k_loop(k, c);
    let regs = store_regs(k, c);
    store_rows(k, c, regs, c.p.nrb);
    k.wait_vscnt(0);
    k.endpgm();
    proof {
        let ops = kernel@.ops;
        lemma_mask_free_counts(ops);
        assert(ops[ops.len() - 1] is Endpgm);
        packed_arguments_are_aligned(kernel@.args, kernel@.kernarg_size);
    }
    kernel
}

} // verus!
