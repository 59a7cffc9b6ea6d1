//! Matrix multiplication kernels, from a description of their tiles.
//!
//! A `GemmConfig` says how the output is cut into tiles, how deep a step along the
//! contraction goes and how the work is spread over threads. `generate` turns it into a
//! kernel; the other functions say how such a kernel is launched.
use vstd::bytes::{
    lemma_auto_spec_u32_to_from_le_bytes, lemma_auto_spec_u64_to_from_le_bytes,
    spec_u32_from_le_bytes, spec_u32_to_le_bytes, spec_u64_from_le_bytes, spec_u64_to_le_bytes,
    u32_to_le_bytes, u64_to_le_bytes,
};
use vstd::prelude::*;

use crate::compile::{
    CompileOptions, KernelState, LowerError, Lowered, T0Kernel, lowering_of, raw_ops_are_ops,
    validation_error,
};
use crate::gemm_lds::{gemm_arg_list, generable, generate_lds_db, lds_kernel, supported_split};
use crate::settled::{kernel_settled, lacks_only_room, settled_kernels_lack_only_room};
use crate::text::{dec, push_dec};

verus! {

/// How the inputs lie in memory.
#[derive(Clone, Copy, Debug, PartialEq, Eq, Structural)]
pub enum GemmTranspose {
    /// `Y[M,N] = A[M,K] * B[N,K]^T`: the rows of both inputs run along K.
    NT,
    /// `Y[M,N] = A[M,K] * B[K,N]`.
    NN,
}

impl Default for GemmTranspose {
    fn default() -> (r: Self)
        ensures
            r == GemmTranspose::NT,
    {
        GemmTranspose::NT
    }
}

/// What happens to the sums before they are stored.
#[derive(Clone, Copy, Debug, PartialEq, Eq, Structural)]
pub enum EpilogueOp {
    /// They are stored as they are.
    StoreF32,
    /// The bias of the column is added.
    BiasAddStoreF32,
    /// The bias of the column is added, and negative results become zero.
    BiasAddReluStoreF32,
}

impl Default for EpilogueOp {
    fn default() -> (r: Self)
        ensures
            r == EpilogueOp::StoreF32,
    {
        EpilogueOp::StoreF32
    }
}

/// Which matrix multiplication kernel is wanted: bf16 inputs, f32 sums.
#[derive(Clone, Copy, Debug, PartialEq, Eq)]
pub struct GemmConfig {
    /// Rows of an output tile.
    pub tile_m: u32,
    /// Columns of an output tile.
    pub tile_n: u32,
    /// Steps along K per turn of the loop.
    pub tile_k: u32,
    /// Threads of a workgroup.
    pub wg_size: u32,
    /// Whether the inputs pass through the local data share.
    pub use_lds: bool,
    /// Whether the local data share holds two buffers.
    pub double_buffer: bool,
    /// Into how many parts K is split.
    pub split_k: Option<u32>,
    /// Bytes of padding per row in the local data share.
    pub lds_pad: u32,
    /// Column passes, a matter of the launch only.
    pub n_col_passes: u32,
    /// Whether the first grid axis runs along the columns.
    pub swap_grid: bool,
    /// Whether a workgroup spans two compute units.
    pub wgp_mode: bool,
    pub transpose: GemmTranspose,
    pub epilogue: EpilogueOp,
}

/// A double-buffered configuration with every other choice at its usual value.
pub open spec fn lds_tile(tile_m: u32, tile_n: u32, tile_k: u32, wg_size: u32) -> GemmConfig {
    GemmConfig {
        tile_m,
        tile_n,
        tile_k,
        wg_size,
        use_lds: true,
        double_buffer: true,
        split_k: None,
        lds_pad: 0,
        n_col_passes: 1,
        swap_grid: true,
        wgp_mode: true,
        transpose: GemmTranspose::NT,
        epilogue: EpilogueOp::StoreF32,
    }
}

impl GemmConfig {
    /// Waves of a workgroup.
    pub open spec fn waves(self) -> nat {
        self.wg_size as nat / 32
    }

    /// Rows that one wave computes.
    pub open spec fn wave_rows(self) -> nat {
        self.tile_m as nat / self.waves()
    }

    /// Blocks of sixteen rows that one wave computes.
    pub open spec fn row_blocks(self) -> nat {
        self.wave_rows() / 16
    }

    /// Blocks of sixteen columns of a tile.
    pub open spec fn col_tiles(self) -> nat {
        self.tile_n as nat / 16
    }

    /// Matrix instructions along K per turn of the loop.
    pub open spec fn sub_steps(self) -> nat {
        self.tile_k as nat / 16
    }

    /// Bytes of the left input per turn of the loop.
    pub open spec fn x_bytes(self) -> nat {
        self.tile_m as nat * self.tile_k as nat * 2
    }

    /// Bytes of the right input per turn of the loop.
    pub open spec fn wt_bytes(self) -> nat {
        self.tile_n as nat * self.tile_k as nat * 2
    }

    /// Bytes from one row to the next in the local data share.
    pub open spec fn row_bytes(self) -> nat {
        self.tile_k as nat * 2 + self.lds_pad as nat
    }

    /// Vector registers that a kernel takes, by estimate.
    pub open spec fn vgprs(self) -> nat {
        self.row_blocks() * self.col_tiles() * 8 + self.row_blocks() * 8 + self.col_tiles() * 8
            + self.x_bytes() / self.wg_size as nat / 16 * 4 + self.wt_bytes()
            / self.wg_size as nat / 16 * 4 + 32
    }

    /// Whether the estimate can be computed without overflow.
    pub open spec fn countable(self) -> bool {
        &&& self.wg_size >= 32
        &&& self.x_bytes() <= u32::MAX
        &&& self.wt_bytes() <= u32::MAX
        &&& self.vgprs() <= u32::MAX
    }

    /// The parts K is split into, at least one.
    pub open spec fn splits(self) -> u32 {
        match self.split_k {
            Some(n) => n,
            None => 1,
        }
    }

    /// 16×64 tiles, 16 deep, one wave: for few rows.
    pub fn tile_16x64_k16() -> (r: Self)
        ensures
            r == lds_tile(16, 64, 16, 32),
    {
        GemmConfig {
            tile_m: 16,
            tile_n: 64,
            tile_k: 16,
            wg_size: 32,
            use_lds: true,
            double_buffer: true,
            split_k: None,
            lds_pad: 0,
            n_col_passes: 1,
            swap_grid: true,
            wgp_mode: true,
            transpose: GemmTranspose::NT,
            epilogue: EpilogueOp::StoreF32,
        }
    }

    /// 32×64 tiles, 16 deep, asked for without the local data share.
    pub fn tile_32x64_direct() -> (r: Self)
        ensures
            r == (GemmConfig { use_lds: false, double_buffer: false, ..lds_tile(32, 64, 16, 64) }),
    {
        GemmConfig {
            tile_m: 32,
            tile_n: 64,
            tile_k: 16,
            wg_size: 64,
            use_lds: false,
            double_buffer: false,
            split_k: None,
            lds_pad: 0,
            n_col_passes: 1,
            swap_grid: true,
            wgp_mode: true,
            transpose: GemmTranspose::NT,
            epilogue: EpilogueOp::StoreF32,
        }
    }

    /// 32×64 tiles, 16 deep.
    pub fn tile_32x64_k16() -> (r: Self)
        ensures
            r == lds_tile(32, 64, 16, 64),
    {
        GemmConfig {
            tile_m: 32,
            tile_n: 64,
            tile_k: 16,
            wg_size: 64,
            use_lds: true,
            double_buffer: true,
            split_k: None,
            lds_pad: 0,
            n_col_passes: 1,
            swap_grid: true,
            wgp_mode: true,
            transpose: GemmTranspose::NT,
            epilogue: EpilogueOp::StoreF32,
        }
    }

    /// 32×64 tiles, 32 deep.
    pub fn tile_32x64_k32() -> (r: Self)
        ensures
            r == lds_tile(32, 64, 32, 64),
    {
        GemmConfig {
            tile_m: 32,
            tile_n: 64,
            tile_k: 32,
            wg_size: 64,
            use_lds: true,
            double_buffer: true,
            split_k: None,
            lds_pad: 0,
            n_col_passes: 1,
            swap_grid: true,
            wgp_mode: true,
            transpose: GemmTranspose::NT,
            epilogue: EpilogueOp::StoreF32,
        }
    }

    /// 32×128 tiles, 16 deep.
    pub fn tile_32x128_k16() -> (r: Self)
        ensures
            r == lds_tile(32, 128, 16, 64),
    {
        GemmConfig {
            tile_m: 32,
            tile_n: 128,
            tile_k: 16,
            wg_size: 64,
            use_lds: true,
            double_buffer: true,
            split_k: None,
            lds_pad: 0,
            n_col_passes: 1,
            swap_grid: true,
            wgp_mode: true,
            transpose: GemmTranspose::NT,
            epilogue: EpilogueOp::StoreF32,
        }
    }

    /// 64×64 tiles, 16 deep.
    pub fn tile_64x64_k16() -> (r: Self)
        ensures
            r == lds_tile(64, 64, 16, 64),
    {
        GemmConfig {
            tile_m: 64,
            tile_n: 64,
            tile_k: 16,
            wg_size: 64,
            use_lds: true,
            double_buffer: true,
            split_k: None,
            lds_pad: 0,
            n_col_passes: 1,
            swap_grid: true,
            wgp_mode: true,
            transpose: GemmTranspose::NT,
            epilogue: EpilogueOp::StoreF32,
        }
    }

    /// 64×64 tiles, 32 deep.
    pub fn tile_64x64_k32() -> (r: Self)
        ensures
            r == lds_tile(64, 64, 32, 64),
    {
        GemmConfig {
            tile_m: 64,
            tile_n: 64,
            tile_k: 32,
            wg_size: 64,
            use_lds: true,
            double_buffer: true,
            split_k: None,
            lds_pad: 0,
            n_col_passes: 1,
            swap_grid: true,
            wgp_mode: true,
            transpose: GemmTranspose::NT,
            epilogue: EpilogueOp::StoreF32,
        }
    }

    /// 128×64 tiles, 16 deep.
    pub fn tile_128x64_k16() -> (r: Self)
        ensures
            r == lds_tile(128, 64, 16, 128),
    {
        GemmConfig {
            tile_m: 128,
            tile_n: 64,
            tile_k: 16,
            wg_size: 128,
            use_lds: true,
            double_buffer: true,
            split_k: None,
            lds_pad: 0,
            n_col_passes: 1,
            swap_grid: true,
            wgp_mode: true,
            transpose: GemmTranspose::NT,
            epilogue: EpilogueOp::StoreF32,
        }
    }

    /// 64×128 tiles, 16 deep.
    pub fn tile_64x128_k16() -> (r: Self)
        ensures
            r == lds_tile(64, 128, 16, 64),
    {
        GemmConfig {
            tile_m: 64,
            tile_n: 128,
            tile_k: 16,
            wg_size: 64,
            use_lds: true,
            double_buffer: true,
            split_k: None,
            lds_pad: 0,
            n_col_passes: 1,
            swap_grid: true,
            wgp_mode: true,
            transpose: GemmTranspose::NT,
            epilogue: EpilogueOp::StoreF32,
        }
    }

    /// 128×64 tiles, 32 deep.
    pub fn tile_128x64_k32() -> (r: Self)
        ensures
            r == lds_tile(128, 64, 32, 128),
    {
        GemmConfig {
            tile_m: 128,
            tile_n: 64,
            tile_k: 32,
            wg_size: 128,
            use_lds: true,
            double_buffer: true,
            split_k: None,
            lds_pad: 0,
            n_col_passes: 1,
            swap_grid: true,
            wgp_mode: true,
            transpose: GemmTranspose::NT,
            epilogue: EpilogueOp::StoreF32,
        }
    }

    /// 128×128 tiles, 16 deep: the most work per byte. A wave holds 2 by 8 blocks of sums, in
    /// 128 vector registers, which is tight but feasible.
    pub fn tile_128x128_k16() -> (r: Self)
        ensures
            r == lds_tile(128, 128, 16, 128),
    {
        GemmConfig {
            tile_m: 128,
            tile_n: 128,
            tile_k: 16,
            wg_size: 128,
            use_lds: true,
            double_buffer: true,
            split_k: None,
            lds_pad: 0,
            n_col_passes: 1,
            swap_grid: true,
            wgp_mode: true,
            transpose: GemmTranspose::NT,
            epilogue: EpilogueOp::StoreF32,
        }
    }

    /// 64×64 tiles, 64 deep.
    pub fn tile_64x64_k64() -> (r: Self)
        ensures
            r == lds_tile(64, 64, 64, 64),
    {
        GemmConfig {
            tile_m: 64,
            tile_n: 64,
            tile_k: 64,
            wg_size: 64,
            use_lds: true,
            double_buffer: true,
            split_k: None,
            lds_pad: 0,
            n_col_passes: 1,
            swap_grid: true,
            wgp_mode: true,
            transpose: GemmTranspose::NT,
            epilogue: EpilogueOp::StoreF32,
        }
    }

    /// 128×128 tiles in two column passes of 128×64.
    pub fn tile_128x128_2pass() -> (r: Self)
        ensures
            r == (GemmConfig { n_col_passes: 2, ..lds_tile(128, 64, 16, 128) }),
    {
        GemmConfig {
            tile_m: 128,
            tile_n: 64,
            tile_k: 16,
            wg_size: 128,
            use_lds: true,
            double_buffer: true,
            split_k: None,
            lds_pad: 0,
            n_col_passes: 2,
            swap_grid: true,
            wgp_mode: true,
            transpose: GemmTranspose::NT,
            epilogue: EpilogueOp::StoreF32,
        }
    }

    /// 64×128 tiles in two column passes of 64×64.
    pub fn tile_64x128_2pass() -> (r: Self)
        ensures
            r == (GemmConfig { n_col_passes: 2, ..lds_tile(64, 64, 16, 64) }),
    {
        GemmConfig {
            tile_m: 64,
            tile_n: 64,
            tile_k: 16,
            wg_size: 64,
            use_lds: true,
            double_buffer: true,
            split_k: None,
            lds_pad: 0,
            n_col_passes: 2,
            swap_grid: true,
            wgp_mode: true,
            transpose: GemmTranspose::NT,
            epilogue: EpilogueOp::StoreF32,
        }
    }

    /// Blocks of sixteen columns of a tile.
    pub fn n_col_tiles(&self) -> (r: usize)
        ensures
            r == self.col_tiles(),
    {
        (self.tile_n / 16) as usize
    }

    /// Blocks of sixteen rows that one wave computes.
    pub fn n_row_blocks(&self) -> (r: usize)
        requires
            self.wg_size >= 32,
        ensures
            r == self.row_blocks(),
    {
        let n_waves: u32 = self.wg_size / 32;
        let rows_per_wave: u32 = self.tile_m / n_waves;
        (rows_per_wave / 16) as usize
    }

    /// Waves of a workgroup.
    pub fn n_waves(&self) -> (r: u32)
        ensures
            r == self.waves(),
    {
        self.wg_size / 32
    }

    /// Rows that one wave computes.
    pub fn rows_per_wave(&self) -> (r: u32)
        requires
            self.wg_size >= 32,
        ensures
            r == self.wave_rows(),
    {
        self.tile_m / self.n_waves()
    }

    /// Matrix instructions along K per turn of the loop.
    pub fn k_sub_steps(&self) -> (r: u32)
        ensures
            r == self.sub_steps(),
    {
        self.tile_k / 16
    }

    /// Bytes of both inputs per buffer, without padding.
    pub fn lds_per_buffer(&self) -> (r: u32)
        requires
            self.x_bytes() + self.wt_bytes() <= u32::MAX,
        ensures
            r == self.x_bytes() + self.wt_bytes(),
    {
        let x_bytes: u32 = self.tile_m * self.tile_k * 2;
        let wt_bytes: u32 = self.tile_n * self.tile_k * 2;
        x_bytes + wt_bytes
    }

    /// Bytes of both inputs in all buffers, without padding.
    pub fn lds_total(&self) -> (r: u32)
        requires
            (self.x_bytes() + self.wt_bytes()) * 2 <= u32::MAX,
        ensures
            self.double_buffer ==> r == (self.x_bytes() + self.wt_bytes()) * 2,
            !self.double_buffer ==> r == self.x_bytes() + self.wt_bytes(),
    {
        if self.double_buffer {
            self.lds_per_buffer() * 2
        } else {
            self.lds_per_buffer()
        }
    }

    /// Bytes of the left input in a buffer, with padding.
    pub fn lds_x_size(&self) -> (r: u32)
        requires
            self.row_bytes() <= u32::MAX,
            self.tile_m * self.row_bytes() <= u32::MAX,
        ensures
            r == self.tile_m * self.row_bytes(),
    {
        self.tile_m * (self.tile_k * 2 + self.lds_pad)
    }

    /// Bytes of the right input in a buffer, with padding.
    pub fn lds_wt_size(&self) -> (r: u32)
        requires
            self.row_bytes() <= u32::MAX,
            self.tile_n * self.row_bytes() <= u32::MAX,
        ensures
            r == self.tile_n * self.row_bytes(),
    {
        self.tile_n * (self.tile_k * 2 + self.lds_pad)
    }

    /// Bytes from one row of the left input to the next in the local data share.
    pub fn lds_x_row_stride(&self) -> (r: u32)
        requires
            self.row_bytes() <= u32::MAX,
        ensures
            r == self.row_bytes(),
    {
        self.tile_k * 2 + self.lds_pad
    }

    /// Bytes from one row of the right input to the next in the local data share.
    pub fn lds_wt_row_stride(&self) -> (r: u32)
        requires
            self.row_bytes() <= u32::MAX,
        ensures
            r == self.row_bytes(),
    {
        self.tile_k * 2 + self.lds_pad
    }

    /// Bytes of the left input that each thread loads.
    pub fn x_bytes_per_thread(&self) -> (r: u32)
        requires
            self.wg_size > 0,
            self.x_bytes() <= u32::MAX,
        ensures
            r == self.x_bytes() / self.wg_size as nat,
    {
        self.tile_m * self.tile_k * 2 / self.wg_size
    }

    /// Bytes of the right input that each thread loads.
    pub fn wt_bytes_per_thread(&self) -> (r: u32)
        requires
            self.wg_size > 0,
            self.wt_bytes() <= u32::MAX,
        ensures
            r == self.wt_bytes() / self.wg_size as nat,
    {
        self.tile_n * self.tile_k * 2 / self.wg_size
    }

    /// Matrix instructions of one wave per turn of the loop.
    pub fn wmma_per_k_tile(&self) -> (r: usize)
        requires
            self.wg_size >= 32,
            self.row_blocks() * self.col_tiles() <= usize::MAX,
            self.row_blocks() * self.col_tiles() * self.sub_steps() <= usize::MAX,
        ensures
            r == self.row_blocks() * self.col_tiles() * self.sub_steps(),
    {
        self.n_row_blocks() * self.n_col_tiles() * self.k_sub_steps() as usize
    }

    /// Vector registers that a kernel takes, by estimate: sums, fragments of both inputs,
    /// loaded data, and 32 for addresses and the like.
    pub fn estimated_vgprs(&self) -> (r: u32)
        requires
            self.countable(),
        ensures
            r == self.vgprs(),
    {
        let nrb: u32 = self.n_row_blocks() as u32;
        let nct: u32 = self.n_col_tiles() as u32;
        let x_lpt: u32 = self.x_bytes_per_thread() / 16;
        let wt_lpt: u32 = self.wt_bytes_per_thread() / 16;
        let acc: u32 = nrb * nct * 8;
        let x_frag: u32 = nrb * 8;
        let wt_frag: u32 = nct * 8;
        let gmem_x: u32 = x_lpt * 4;
        let gmem_wt: u32 = wt_lpt * 4;
        acc + x_frag + wt_frag + gmem_x + gmem_wt + 32
    }

    /// Whether the estimate stays within the 256 vector registers of a wave.
    pub fn is_feasible(&self) -> (r: bool)
        requires
            self.countable(),
        ensures
            r == (self.vgprs() <= 256),
    {
        self.estimated_vgprs() <= 256
    }

    /// A name that tells kernels apart.
    pub fn name(&self) -> (r: String)
        ensures
            r@ == config_name(*self),
    {
        proof {
            reveal_strlit("");
        }
        let mut r = String::new();
        r.append("t0_gemm_");
        push_dec(&mut r, self.tile_m as u64);
        r.append("x");
        push_dec(&mut r, self.tile_n as u64);
        r.append("_k");
        push_dec(&mut r, self.tile_k as u64);
        r.append(
            if self.use_lds {
                if self.double_buffer {
                    "_ldsdb"
                } else {
                    "_lds"
                }
            } else {
                "_direct"
            },
        );
        let ghost head = r@;
        assert(head =~= shape_name(*self));
        match self.split_k {
            Some(sk) => {
                if sk > 1 {
                    r.append("_sk");
                    push_dec(&mut r, sk as u64);
                }
            },
            None => {},
        }
        assert(r@ =~= head + split_tag(*self));
        let ghost with_split = r@;
        if self.n_col_passes > 1 {
            r.append("_");
            push_dec(&mut r, self.n_col_passes as u64);
            r.append("p");
        }
        assert(r@ =~= with_split + pass_tag(*self));
        r.append(
            if self.swap_grid {
                ""
            } else {
                "_mg"
            },
        );
        r.append(
            if self.wgp_mode {
                "_wgp"
            } else {
                ""
            },
        );
        r.append(
            match self.transpose {
                GemmTranspose::NN => "_nn",
                GemmTranspose::NT => "",
            },
        );
        r.append(
            match self.epilogue {
                EpilogueOp::StoreF32 => "",
                EpilogueOp::BiasAddStoreF32 => "_bias",
                EpilogueOp::BiasAddReluStoreF32 => "_bias_relu",
            },
        );
        r
    }
}

/// The part of a name that says the tile sizes and the use of the local data share.
pub open spec fn shape_name(c: GemmConfig) -> Seq<char> {
    "t0_gemm_"@ + dec(c.tile_m as nat) + "x"@ + dec(c.tile_n as nat) + "_k"@ + dec(
        c.tile_k as nat,
    ) + if c.use_lds {
        if c.double_buffer {
            "_ldsdb"@
        } else {
            "_lds"@
        }
    } else {
        "_direct"@
    }
}

/// The part of a name that says how K is split.
pub open spec fn split_tag(c: GemmConfig) -> Seq<char> {
    if c.splits() > 1 {
        "_sk"@ + dec(c.splits() as nat)
    } else {
        ""@
    }
}

/// The part of a name that says the column passes.
pub open spec fn pass_tag(c: GemmConfig) -> Seq<char> {
    if c.n_col_passes > 1 {
        "_"@ + dec(c.n_col_passes as nat) + "p"@
    } else {
        ""@
    }
}

/// The name of a configuration.
pub open spec fn config_name(c: GemmConfig) -> Seq<char> {
    shape_name(c) + split_tag(c) + pass_tag(c) + (if c.swap_grid {
        ""@
    } else {
        "_mg"@
    }) + (if c.wgp_mode {
        "_wgp"@
    } else {
        ""@
    }) + (match c.transpose {
        GemmTranspose::NN => "_nn"@,
        GemmTranspose::NT => ""@,
    }) + (match c.epilogue {
        EpilogueOp::StoreF32 => ""@,
        EpilogueOp::BiasAddStoreF32 => "_bias"@,
        EpilogueOp::BiasAddReluStoreF32 => "_bias_relu"@,
    })
}

/// The configurations worth measuring.
pub open spec fn sweep_list() -> Seq<GemmConfig> {
    seq![
        lds_tile(16, 64, 16, 32),
        lds_tile(32, 64, 16, 64),
        lds_tile(32, 64, 32, 64),
        lds_tile(32, 128, 16, 64),
        lds_tile(64, 64, 16, 64),
        lds_tile(64, 64, 32, 64),
        lds_tile(128, 64, 16, 128),
        lds_tile(64, 128, 16, 64),
        lds_tile(128, 64, 32, 128),
    ]
}

/// The configurations worth measuring.
pub fn sweep_configs() -> (r: Vec<GemmConfig>)
    ensures
        r@ == sweep_list(),
{
    let r = vec![
        GemmConfig::tile_16x64_k16(),
        GemmConfig::tile_32x64_k16(),
        GemmConfig::tile_32x64_k32(),
        GemmConfig::tile_32x128_k16(),
        GemmConfig::tile_64x64_k16(),
        GemmConfig::tile_64x64_k32(),
        GemmConfig::tile_128x64_k16(),
        GemmConfig::tile_64x128_k16(),
        GemmConfig::tile_128x64_k32(),
    ];
    assert(r@ =~= sweep_list());
    r
}

/// The same configuration with K split into `n` parts.
pub open spec fn split(c: GemmConfig, n: u32) -> GemmConfig {
    GemmConfig { split_k: Some(n), ..c }
}

/// The configurations that cover the usual cases.
pub open spec fn standard_list() -> Seq<GemmConfig> {
    seq![
        lds_tile(16, 64, 16, 32),
        lds_tile(32, 64, 16, 64),
        lds_tile(32, 64, 32, 64),
        lds_tile(32, 128, 16, 64),
        lds_tile(64, 64, 16, 64),
        lds_tile(64, 64, 32, 64),
        lds_tile(128, 64, 32, 128),
        split(lds_tile(32, 64, 32, 64), 2),
        split(lds_tile(16, 64, 16, 32), 4),
        split(lds_tile(64, 64, 32, 64), 2),
        split(lds_tile(64, 64, 16, 64), 4),
        split(lds_tile(64, 64, 32, 64), 4),
        split(lds_tile(64, 64, 16, 64), 8),
        split(lds_tile(128, 64, 32, 128), 2),
    ]
}

/// The configurations that cover the usual cases.
pub fn standard_configs() -> (r: Vec<GemmConfig>)
    ensures
        r@ == standard_list(),
{
    let r = vec![
        GemmConfig::tile_16x64_k16(),
        GemmConfig::tile_32x64_k16(),
        GemmConfig::tile_32x64_k32(),
        GemmConfig::tile_32x128_k16(),
        GemmConfig::tile_64x64_k16(),
        GemmConfig::tile_64x64_k32(),
        GemmConfig::tile_128x64_k32(),
        GemmConfig { split_k: Some(2), ..GemmConfig::tile_32x64_k32() },
        GemmConfig { split_k: Some(4), ..GemmConfig::tile_16x64_k16() },
        GemmConfig { split_k: Some(2), ..GemmConfig::tile_64x64_k32() },
        GemmConfig { split_k: Some(4), ..GemmConfig::tile_64x64_k16() },
        GemmConfig { split_k: Some(4), ..GemmConfig::tile_64x64_k32() },
        GemmConfig { split_k: Some(8), ..GemmConfig::tile_64x64_k16() },
        GemmConfig { split_k: Some(2), ..GemmConfig::tile_128x64_k32() },
    ];
    assert(r@ =~= standard_list());
    r
}

// ── Kernels ──
/// The configuration with the local data share in use and double-buffered.
pub open spec fn buffered(c: GemmConfig) -> GemmConfig {
    GemmConfig { use_lds: true, double_buffer: true, ..c }
}

/// The kernel of a configuration: always the double-buffered one, and never optimized, since
/// its operations are in the order they should have.
pub open spec fn gemm_kernel(c: GemmConfig) -> KernelState {
    KernelState { skip_optimize: true, ..lds_kernel(buffered(c)) }
}

impl GemmConfig {
    /// Whether the configuration has a kernel.
    pub fn is_generable(&self) -> (r: bool)
        ensures
            r == generable(*self),
    {
        let sizes: bool = (self.tile_m == 16 || self.tile_m == 32 || self.tile_m == 64
            || self.tile_m == 128) && (self.tile_n == 32 || self.tile_n == 64 || self.tile_n == 128)
            && (self.tile_k == 16 || self.tile_k == 32 || self.tile_k == 64);
        if !sizes || self.wg_size < 32 || self.lds_pad > 65536 {
            proof {
                assert(self.tile_m >= 1 ==> self.tile_m * self.row_bytes() >= self.row_bytes())
                    by (nonlinear_arith)
                    requires
                        self.row_bytes() >= 0,
                ;
                assert(self.tile_n * self.row_bytes() >= 0) by (nonlinear_arith)
                    requires
                        self.row_bytes() >= 0,
                ;
            }
            return false;
        }
        let rows: u32 = self.rows_per_wave();
        if rows != 16 && rows != 32 && rows != 64 {
            return false;
        }
        let split_k: u32 = match self.split_k {
            Some(n) => n,
            None => 1,
        };
        if split_k != 1 && split_k != 2 && split_k != 4 && split_k != 8 && split_k != 16 {
            return false;
        }
        proof {
            lemma_small_sizes(*self);
        }
        self.is_feasible() && self.lds_x_size() + self.lds_wt_size() <= 65536
    }
}

/// The sizes of small tiles can be computed without overflow.
proof fn lemma_small_sizes(c: GemmConfig)
    requires
        c.tile_m <= 128,
        c.tile_n <= 128,
        c.tile_k <= 64,
        c.wg_size >= 32,
        c.lds_pad <= 65536,
    ensures
        c.countable(),
        c.row_bytes() <= 65664,
        0 <= c.tile_m * c.row_bytes() <= 128 * 65664,
        0 <= c.tile_n * c.row_bytes() <= 128 * 65664,
{
    assert(c.tile_m as nat * c.tile_k as nat <= 128 * 64) by (nonlinear_arith)
        requires
            c.tile_m <= 128,
            c.tile_k <= 64,
    ;
    assert(c.tile_n as nat * c.tile_k as nat <= 128 * 64) by (nonlinear_arith)
        requires
            c.tile_n <= 128,
            c.tile_k <= 64,
    ;
    assert(c.wave_rows() <= 128) by (nonlinear_arith)
        requires
            c.wave_rows() == c.tile_m as nat / c.waves(),
            c.tile_m <= 128,
            c.waves() >= 1,
    ;
    assert(0 <= c.row_blocks() * c.col_tiles() <= 8 * 8) by (nonlinear_arith)
        requires
            c.row_blocks() <= 8,
            c.col_tiles() <= 8,
    ;
    assert(c.x_bytes() / c.wg_size as nat <= 128 * 64 * 2) by (nonlinear_arith)
        requires
            c.x_bytes() <= 128 * 64 * 2,
            c.wg_size >= 32,
    ;
    assert(c.wt_bytes() / c.wg_size as nat <= 128 * 64 * 2) by (nonlinear_arith)
        requires
            c.wt_bytes() <= 128 * 64 * 2,
            c.wg_size >= 32,
    ;
    assert(0 <= c.tile_m * c.row_bytes() <= 128 * 65664) by (nonlinear_arith)
        requires
            c.tile_m <= 128,
            0 <= c.row_bytes() <= 65664,
    ;
    assert(0 <= c.tile_n * c.row_bytes() <= 128 * 65664) by (nonlinear_arith)
        requires
            c.tile_n <= 128,
            0 <= c.row_bytes() <= 65664,
    ;
}

/// Builds the kernel of a configuration. It is valid, its scalar registers fit, and it can be
/// written down wherever its registers are placed, so that lowering it fails for want of
/// vector registers alone.
pub fn generate(cfg: &GemmConfig) -> (r: T0Kernel)
    requires
        generable(*cfg),
    ensures
        r@ == gemm_kernel(*cfg),
        r@.wf(),
        validation_error(r@) is None,
        kernel_settled(r@),
        forall|options: CompileOptions, lowering: Result<Lowered, LowerError>| #[trigger]
            lowering_of(r@, r.raw_ops(), options, lowering) ==> lacks_only_room(
                r.raw_ops().len(),
                lowering,
            ),
        r@.args == gemm_arg_list(cfg.epilogue != EpilogueOp::StoreF32),
        r@.kernarg_size == if cfg.epilogue == EpilogueOp::StoreF32 {
            40nat
        } else {
            48
        },
{
    let mut k = if cfg.use_lds && cfg.double_buffer {
        assert(buffered(*cfg) == *cfg);
        generate_lds_db(cfg)
    } else {
        generate_direct(cfg)
    };
    k.set_skip_optimize(true);
    proof {
        raw_ops_are_ops(k);
        assert forall|options: CompileOptions, lowering: Result<Lowered, LowerError>|
            #[trigger] lowering_of(k@, k.raw_ops(), options, lowering) implies lacks_only_room(
            k.raw_ops().len(),
            lowering,
        ) by {
            settled_kernels_lack_only_room(k@, k.raw_ops(), options, lowering);
        }
    }
    k
}

/// Builds the kernel of a configuration that asks for no double buffer: the double-buffered
/// one stands in.
fn generate_direct(cfg: &GemmConfig) -> (r: T0Kernel)
    requires
        generable(*cfg),
    ensures
        r@ == lds_kernel(buffered(*cfg)),
        r@.wf(),
        validation_error(r@) is None,
        kernel_settled(r@),
        r@.next_sreg <= 39,
        r@.args == gemm_arg_list(cfg.epilogue != EpilogueOp::StoreF32),
        r@.kernarg_size == if cfg.epilogue == EpilogueOp::StoreF32 {
            40nat
        } else {
            48
        },
{
    let lds_cfg = GemmConfig { use_lds: true, double_buffer: true, ..*cfg };
    generate_lds_db(&lds_cfg)
}

/// A tile shape has a kernel, however K is split, whatever the grid and the epilogue are.
pub open spec fn shape_generable(c: GemmConfig) -> bool {
    forall|d: GemmConfig|
        d.tile_m == c.tile_m && d.tile_n == c.tile_n && d.tile_k == c.tile_k && d.wg_size
            == c.wg_size && d.lds_pad == c.lds_pad && supported_split(d.splits()) ==> #[trigger]
            generable(d)
}

/// A tile shape has a kernel if the division of its rows and bytes among waves and threads
/// comes out even, and registers and buffers suffice.
proof fn lemma_shape(tm: u32, tn: u32, tk: u32, wg: u32, w: nat, rw: nat, xs: nat, ws: nat)
    requires
        tm == 16 || tm == 32 || tm == 64 || tm == 128,
        tn == 32 || tn == 64 || tn == 128,
        tk == 16 || tk == 32 || tk == 64,
        wg == 32 * w,
        w > 0,
        rw == 16 || rw == 32 || rw == 64,
        tm == rw * w,
        tm * tk * 2 == xs * wg,
        tn * tk * 2 == ws * wg,
        (rw / 16) * (tn as nat / 16) * 8 + (rw / 16) * 8 + (tn as nat / 16) * 8 + xs / 16 * 4 + ws
            / 16 * 4 + 32 <= 256,
        tm * (tk * 2) + tn * (tk * 2) <= 65536,
    ensures
        shape_generable(lds_tile(tm, tn, tk, wg)),
{
    assert forall|d: GemmConfig|
        d.tile_m == tm && d.tile_n == tn && d.tile_k == tk && d.wg_size == wg && d.lds_pad == 0
            && supported_split(d.splits()) implies #[trigger] generable(d) by {
        vstd::arithmetic::div_mod::lemma_div_multiples_vanish(rw as int, w as int);
        vstd::arithmetic::mul::lemma_mul_is_commutative(rw as int, w as int);
        assert(d.waves() == w);
        assert(d.wave_rows() == rw);
        vstd::arithmetic::div_mod::lemma_div_multiples_vanish(xs as int, wg as int);
        vstd::arithmetic::mul::lemma_mul_is_commutative(xs as int, wg as int);
        vstd::arithmetic::div_mod::lemma_div_multiples_vanish(ws as int, wg as int);
        vstd::arithmetic::mul::lemma_mul_is_commutative(ws as int, wg as int);
        assert(d.x_bytes() / wg as nat == xs);
        assert(d.wt_bytes() / wg as nat == ws);
    }
}

/// The usual tile shapes have kernels.
proof fn lemma_shapes()
    ensures
        shape_generable(lds_tile(16, 64, 16, 32)),
        shape_generable(lds_tile(32, 64, 16, 64)),
        shape_generable(lds_tile(32, 64, 32, 64)),
        shape_generable(lds_tile(32, 128, 16, 64)),
        shape_generable(lds_tile(64, 64, 16, 64)),
        shape_generable(lds_tile(64, 64, 32, 64)),
        shape_generable(lds_tile(128, 64, 16, 128)),
        shape_generable(lds_tile(128, 64, 32, 128)),
{
    lemma_shape(16, 64, 16, 32, 1, 16, 16, 64);
    lemma_shape(32, 64, 16, 64, 2, 16, 16, 32);
    lemma_shape(32, 64, 32, 64, 2, 16, 32, 64);
    lemma_shape(32, 128, 16, 64, 2, 16, 16, 64);
    lemma_shape(64, 64, 16, 64, 2, 32, 32, 32);
    lemma_shape(64, 64, 32, 64, 2, 32, 64, 64);
    lemma_shape(128, 64, 16, 128, 4, 32, 32, 16);
    lemma_shape(128, 64, 32, 128, 4, 32, 64, 32);
}

/// Every standard configuration has a kernel, and every one worth measuring but that with
/// 64×128 tiles, which asks for more registers than there are.
pub proof fn listed_configs_are_generable(i: int)
    ensures
        0 <= i < sweep_list().len() && sweep_list()[i] != lds_tile(64, 128, 16, 64) ==> generable(
            sweep_list()[i],
        ),
        0 <= i < standard_list().len() ==> generable(standard_list()[i]),
{
    lemma_shapes();
}

// ── Launch grids ──
/// How many pieces of size `b` it takes to cover `a`.
pub open spec fn ceil_div(a: nat, b: nat) -> nat {
    ((a + b - 1) / b as int) as nat
}

/// The columns that one workgroup is responsible for, over all passes.
pub open spec fn pass_columns(c: GemmConfig) -> nat {
    c.tile_n as nat * c.n_col_passes as nat
}

/// Threads along the first grid axis, workgroups along the second, with `layers` workgroups
/// per tile.
pub open spec fn grid_of(c: GemmConfig, m: nat, n: nat, layers: nat) -> (nat, nat) {
    let tiles_m = ceil_div(m, c.tile_m as nat);
    let tiles_n = ceil_div(n, pass_columns(c));
    if c.swap_grid {
        (tiles_n * c.wg_size as nat, tiles_m * layers)
    } else {
        (tiles_m * c.wg_size as nat, tiles_n * layers)
    }
}

/// Whether a grid can be computed without overflow or division by zero.
pub open spec fn grid_fits(c: GemmConfig, m: nat, n: nat, layers: nat) -> bool {
    &&& c.tile_m > 0
    &&& 0 < pass_columns(c) <= u32::MAX
    &&& m + c.tile_m - 1 <= u32::MAX
    &&& n + pass_columns(c) - 1 <= u32::MAX
    &&& grid_of(c, m, n, layers).0 <= u32::MAX
    &&& grid_of(c, m, n, layers).1 <= u32::MAX
}

/// The grid that covers an `m`×`n` output.
pub fn compute_grid(cfg: &GemmConfig, m: u32, n: u32) -> (r: (u32, u32))
    requires
        grid_fits(*cfg, m as nat, n as nat, 1),
    ensures
        r.0 == grid_of(*cfg, m as nat, n as nat, 1).0,
        r.1 == grid_of(*cfg, m as nat, n as nat, 1).1,
{
    let effective_n: u32 = cfg.tile_n * cfg.n_col_passes;
    let tiles_m: u32 = (m + (cfg.tile_m - 1)) / cfg.tile_m;
    let tiles_n: u32 = (n + (effective_n - 1)) / effective_n;
    if cfg.swap_grid {
        (tiles_n * cfg.wg_size, tiles_m)
    } else {
        (tiles_m * cfg.wg_size, tiles_n)
    }
}

/// Whether a number is a power of two.
pub open spec fn is_pow2(n: nat) -> bool
    decreases n,
{
    n == 1 || (n > 1 && n % 2 == 0 && is_pow2(n / 2))
}

/// The grid that covers an `m`×`n` output `split_k` times.
pub fn compute_grid_split_k(cfg: &GemmConfig, m: u32, n: u32, split_k: u32) -> (r: (u32, u32))
    requires
        is_pow2(split_k as nat),
        grid_fits(*cfg, m as nat, n as nat, split_k as nat),
    ensures
        r.0 == grid_of(*cfg, m as nat, n as nat, split_k as nat).0,
        r.1 == grid_of(*cfg, m as nat, n as nat, split_k as nat).1,
{
    let effective_n: u32 = cfg.tile_n * cfg.n_col_passes;
    let tiles_m: u32 = (m + (cfg.tile_m - 1)) / cfg.tile_m;
    let tiles_n: u32 = (n + (effective_n - 1)) / effective_n;
    if cfg.swap_grid {
        (tiles_n * cfg.wg_size, tiles_m * split_k)
    } else {
        (tiles_m * cfg.wg_size, tiles_n * split_k)
    }
}

/// Workgroups per tile: one for each part of K.
pub open spec fn layers_of(c: GemmConfig) -> nat {
    if c.splits() > 1 {
        c.splits() as nat
    } else {
        1
    }
}

/// The grid that covers an `m`×`n` output, with as many layers as K has parts.
pub fn compute_grid_auto(cfg: &GemmConfig, m: u32, n: u32) -> (r: (u32, u32))
    requires
        is_pow2(layers_of(*cfg)),
        grid_fits(*cfg, m as nat, n as nat, layers_of(*cfg)),
    ensures
        r.0 == grid_of(*cfg, m as nat, n as nat, layers_of(*cfg)).0,
        r.1 == grid_of(*cfg, m as nat, n as nat, layers_of(*cfg)).1,
{
    let sk: u32 = match cfg.split_k {
        Some(sk) => sk,
        None => 1,
    };
    if sk > 1 {
        compute_grid_split_k(cfg, m, n, sk)
    } else {
        compute_grid(cfg, m, n)
    }
}

/// Tiles cover every row, and none of them lies wholly outside.
pub proof fn tiles_cover(a: nat, b: nat)
    requires
        b > 0,
    ensures
        a <= ceil_div(a, b) * b,
        ceil_div(a, b) * b < a + b,
        ceil_div(a, b) == 0 <==> a == 0,
{
    let q = ceil_div(a, b) as int;
    let x = a + b - 1;
    vstd::arithmetic::div_mod::lemma_fundamental_div_mod(x, b as int);
    vstd::arithmetic::mul::lemma_mul_is_commutative(b as int, q);
    assert(q * b + x % (b as int) == x);
    assert(q == 0 ==> q * b == 0) by (nonlinear_arith);
    assert(q >= 1 ==> q * b >= b) by (nonlinear_arith)
        requires
            b > 0,
    ;
}

// ── Choice of a configuration ──
/// `sk`, halved until K divides into that many parts of whole tiles.
pub open spec fn dividing_split(k: nat, tile_k: nat, sk: nat) -> nat
    decreases sk,
{
    if sk <= 1 || k % (tile_k * sk) == 0 {
        sk
    } else {
        dividing_split(k, tile_k, sk / 2)
    }
}

/// The largest power of two that is not more than `n`.
pub open spec fn power_below(n: nat) -> nat
    decreases n,
{
    if n <= 1 {
        n
    } else {
        2 * power_below(n / 2)
    }
}

/// How many parts halving starts from: as many as asked for, if K has as many tiles, in
/// either case a power of two.
pub open spec fn first_split(k: nat, tile_k: nat, desired: nat) -> nat {
    power_below(
        if desired <= k / tile_k {
            desired
        } else {
            k / tile_k
        },
    )
}

/// How K is split when `desired` parts are asked for.
pub open spec fn clamped_split(k: nat, tile_k: nat, desired: nat) -> Option<u32> {
    let sk = dividing_split(k, tile_k, first_split(k, tile_k, desired));
    if sk > 1 {
        Some(sk as u32)
    } else {
        None
    }
}

/// A power of two is at least one, and not more than what it was rounded down from.
proof fn lemma_power_below(n: nat)
    ensures
        power_below(n) <= n,
        n > 0 ==> n < 2 * power_below(n),
        power_below(power_below(n)) == power_below(n),
    decreases n,
{
    if n > 1 {
        lemma_power_below(n / 2);
        let half = power_below(n / 2);
        assert(power_below(2 * half) == 2 * power_below(half)) by {
            assert((2 * half) / 2 == half);
        }
    }
}

/// The largest power of two that is not more than `n`.
fn round_down(n: u32) -> (r: u32)
    ensures
        r == power_below(n as nat),
        r <= n,
    decreases n,
{
    proof {
        lemma_power_below(n as nat);
    }
    if n <= 1 {
        n
    } else {
        let half: u32 = round_down(n / 2);
        2 * half
    }
}

/// How K is split when `desired` parts are asked for.
fn clamp_sk(k: u32, tile_k: u32, desired_sk: u32) -> (r: Option<u32>)
    requires
        tile_k > 0,
    ensures
        r == clamped_split(k as nat, tile_k as nat, desired_sk as nat),
{
    let max_sk: u32 = k / tile_k;
    let mut sk: u32 = round_down(
        if desired_sk <= max_sk {
            desired_sk
        } else {
            max_sk
        },
    );
    let ghost start = sk as nat;
    proof {
        lemma_split_fits(k as nat, tile_k as nat, sk as nat);
    }
    while sk > 1 && k % (tile_k * sk) != 0
        invariant
            tile_k > 0,
            sk <= k / tile_k,
            0 <= tile_k * sk <= k,
            sk > 0 ==> tile_k * sk > 0,
            dividing_split(k as nat, tile_k as nat, sk as nat) == dividing_split(
                k as nat,
                tile_k as nat,
                start,
            ),
        decreases sk,
    {
        sk = sk / 2;
        proof {
            lemma_split_fits(k as nat, tile_k as nat, sk as nat);
        }
    }
    if sk > 1 {
        Some(sk)
    } else {
        None
    }
}

/// As many parts as K has whole tiles do not reach beyond K.
proof fn lemma_split_fits(k: nat, tile_k: nat, sk: nat)
    requires
        tile_k > 0,
        sk <= k / tile_k,
    ensures
        0 <= tile_k * sk <= k,
        sk > 0 ==> tile_k * sk > 0,
{
    vstd::arithmetic::div_mod::lemma_fundamental_div_mod(k as int, tile_k as int);
    vstd::arithmetic::mul::lemma_mul_inequality(sk as int, (k / tile_k) as int, tile_k as int);
    vstd::arithmetic::mul::lemma_mul_is_commutative(sk as int, tile_k as int);
    vstd::arithmetic::mul::lemma_mul_is_commutative((k / tile_k) as int, tile_k as int);
    assert(sk > 0 ==> tile_k * sk > 0) by (nonlinear_arith)
        requires
            tile_k > 0,
    ;
}

/// A split of K divides it into parts of whole tiles, at most as many as asked for, and a
/// power of two of them.
pub proof fn split_divides(k: nat, tile_k: nat, desired: nat)
    requires
        tile_k > 0,
        desired <= u32::MAX,
    ensures
        match clamped_split(k, tile_k, desired) {
            Some(n) => 1 < n <= desired && k % (tile_k * n as nat) == 0 && power_below(n as nat)
                == n,
            None => true,
        },
{
    let most = if desired <= k / tile_k {
        desired
    } else {
        k / tile_k
    };
    lemma_power_below(most);
    lemma_dividing_split(k, tile_k, first_split(k, tile_k, desired));
}

/// What halving a power of two stops at divides, is no more than the start, and a power of
/// two.
proof fn lemma_dividing_split(k: nat, tile_k: nat, sk: nat)
    requires
        power_below(sk) == sk,
    ensures
        power_below(dividing_split(k, tile_k, sk)) == dividing_split(k, tile_k, sk),
        dividing_split(k, tile_k, sk) <= sk,
        dividing_split(k, tile_k, sk) <= 1 || k % (tile_k * dividing_split(k, tile_k, sk)) == 0,
    decreases sk,
{
    if !(sk <= 1 || k % (tile_k * sk) == 0) {
        lemma_dividing_split(k, tile_k, sk / 2);
    }
}

/// The configuration chosen for an `m`×`k` by `k`×`n` product.
pub open spec fn selected(m: u32, k: u32, n: u32) -> GemmConfig {
    let use_128m = m % 128 == 0 && m >= 128;
    let thin = k >= 512 && n >= 1024 && use_128m;
    let tall = lds_tile(128, 64, 16, 128);
    let square = lds_tile(64, 64, 16, 64);
    if m <= 256 && thin {
        GemmConfig { swap_grid: false, split_k: clamped_split(k as nat, 16, 4), ..tall }
    } else if m <= 512 && thin {
        GemmConfig { swap_grid: false, split_k: clamped_split(k as nat, 16, 8), ..tall }
    } else if m * n <= 512 * 512 {
        GemmConfig { swap_grid: false, split_k: clamped_split(k as nat, 16, 8), ..square }
    } else if m * n <= 1024 * 1024 && use_128m {
        GemmConfig { swap_grid: false, split_k: clamped_split(k as nat, 16, 2), ..tall }
    } else if use_128m {
        GemmConfig { split_k: clamped_split(k as nat, 16, 8), ..tall }
    } else if m % 64 == 0 {
        GemmConfig { split_k: clamped_split(k as nat, 16, 4), ..square }
    } else {
        GemmConfig { split_k: clamped_split(k as nat, 16, 4), ..lds_tile(32, 64, 16, 64) }
    }
}

/// The configuration for given matrix sizes.
pub fn auto_select(m: u32, k: u32, n: u32) -> (r: GemmConfig)
    ensures
        r == selected(m, k, n),
{
    auto_select_legacy(m, k, n)
}

/// The configuration for given matrix sizes, by rules found in measurements: thin products
/// put the rows on the first grid axis, small ones take square tiles, large ones tall tiles,
/// and K is split to keep the machine busy.
pub fn auto_select_legacy(m: u32, k: u32, n: u32) -> (r: GemmConfig)
    ensures
        r == selected(m, k, n),
{
    assert(m * n <= u32::MAX * u32::MAX) by (nonlinear_arith)
        requires
            m <= u32::MAX,
            n <= u32::MAX,
    ;
    assert(0 <= m * n) by (nonlinear_arith);
    let mn: u64 = (m as u64) * (n as u64);
    let use_128m = m % 128 == 0 && m >= 128;
    let use_64m = m % 64 == 0;
    if m <= 256 && k >= 512 && n >= 1024 && use_128m {
        GemmConfig {
            swap_grid: false,
            wgp_mode: true,
            split_k: clamp_sk(k, 16, 4),
            ..GemmConfig::tile_128x64_k16()
        }
    } else if m <= 512 && k >= 512 && n >= 1024 && use_128m {
        GemmConfig {
            swap_grid: false,
            wgp_mode: true,
            split_k: clamp_sk(k, 16, 8),
            ..GemmConfig::tile_128x64_k16()
        }
    } else if mn <= 512 * 512 {
        GemmConfig {
            swap_grid: false,
            split_k: clamp_sk(k, 16, 8),
            ..GemmConfig::tile_64x64_k16()
        }
    } else if mn <= 1024 * 1024 && use_128m {
        GemmConfig {
            swap_grid: false,
            wgp_mode: true,
            split_k: clamp_sk(k, 16, 2),
            ..GemmConfig::tile_128x64_k16()
        }
    } else if use_128m {
        GemmConfig {
            wgp_mode: true,
            split_k: clamp_sk(k, 16, 8),
            ..GemmConfig::tile_128x64_k16()
        }
    } else if use_64m {
        GemmConfig {
            wgp_mode: true,
            split_k: clamp_sk(k, 16, 4),
            ..GemmConfig::tile_64x64_k16()
        }
    } else {
        GemmConfig { split_k: clamp_sk(k, 16, 4), ..GemmConfig::tile_32x64_k16() }
    }
}

/// A split into more than one part is into a supported number of parts.
proof fn lemma_split_supported(k: u32, desired: nat)
    requires
        desired == 2 || desired == 4 || desired == 8,
    ensures
        clamped_split(k as nat, 16, desired) matches Some(n) ==> supported_split(n),
{
    split_divides(k as nat, 16, desired);
    reveal_with_fuel(power_below, 4);
}

/// What is chosen has a kernel.
pub proof fn selected_is_generable(m: u32, k: u32, n: u32)
    ensures
        generable(selected(m, k, n)),
{
    lemma_shapes();
    assert(shape_generable(lds_tile(32, 64, 16, 64)));
    assert(shape_generable(lds_tile(64, 64, 16, 64)));
    assert(shape_generable(lds_tile(128, 64, 16, 128)));
    lemma_split_supported(k, 2);
    lemma_split_supported(k, 4);
    lemma_split_supported(k, 8);
}

// ── Argument buffers ──
/// Bytes between the outputs of two parts of K.
pub open spec fn y_stride(c: GemmConfig, m: nat, n: nat) -> nat {
    if c.splits() > 1 {
        m * n * 4
    } else {
        0
    }
}

/// The arguments that every kernel takes: three addresses, the sizes along K and N, an unused
/// word, and the bytes between the outputs of two parts of K.
pub open spec fn common_bytes(x: u64, wt: u64, y: u64, k: u32, n: u32, stride: u32) -> Seq<u8> {
    spec_u64_to_le_bytes(x) + spec_u64_to_le_bytes(wt) + spec_u64_to_le_bytes(y)
        + spec_u32_to_le_bytes(k) + spec_u32_to_le_bytes(n) + spec_u32_to_le_bytes(0)
        + spec_u32_to_le_bytes(stride)
}

/// The 32-bit number at a place of a buffer.
pub open spec fn u32_at(bytes: Seq<u8>, at: int) -> u32 {
    spec_u32_from_le_bytes(bytes.subrange(at, at + 4))
}

/// The 64-bit number at a place of a buffer.
pub open spec fn u64_at(bytes: Seq<u8>, at: int) -> u64 {
    spec_u64_from_le_bytes(bytes.subrange(at, at + 8))
}

/// The bytes of the common arguments.
fn common_kernargs(x: u64, wt: u64, y: u64, k: u32, n: u32, stride: u32) -> (r: Vec<u8>)
    ensures
        r@ == common_bytes(x, wt, y, k, n, stride),
        r@.len() == 40,
{
    let mut r = u64_to_le_bytes(x);
    let mut b = u64_to_le_bytes(wt);
    r.append(&mut b);
    let mut b = u64_to_le_bytes(y);
    r.append(&mut b);
    let mut b = u32_to_le_bytes(k);
    r.append(&mut b);
    let mut b = u32_to_le_bytes(n);
    r.append(&mut b);
    let mut b = u32_to_le_bytes(0);
    r.append(&mut b);
    let mut b = u32_to_le_bytes(stride);
    r.append(&mut b);
    r
}

/// Bytes between the outputs of two parts of K.
fn stride_of(cfg: &GemmConfig, m: u32, n: u32) -> (r: u32)
    requires
        y_stride(*cfg, m as nat, n as nat) <= u32::MAX,
    ensures
        r == y_stride(*cfg, m as nat, n as nat),
{
    let sk: u32 = match cfg.split_k {
        Some(sk) => sk,
        None => 1,
    };
    if sk > 1 {
        assert(0 <= m * n) by (nonlinear_arith);
        m * n * 4
    } else {
        0
    }
}

/// The 44 bytes of arguments of a kernel without bias: the common ones, then the rows.
pub open spec fn kernarg_bytes(
    x: u64,
    wt: u64,
    y: u64,
    k: u32,
    n: u32,
    m: u32,
    c: GemmConfig,
) -> Seq<u8> {
    common_bytes(x, wt, y, k, n, y_stride(c, m as nat, n as nat) as u32) + spec_u32_to_le_bytes(m)
}

/// The 48 bytes of arguments of a kernel with bias: the common ones, then its address.
pub open spec fn kernarg_bias_bytes(
    x: u64,
    wt: u64,
    y: u64,
    k: u32,
    n: u32,
    m: u32,
    c: GemmConfig,
    bias: u64,
) -> Seq<u8> {
    common_bytes(x, wt, y, k, n, y_stride(c, m as nat, n as nat) as u32) + spec_u64_to_le_bytes(
        bias,
    )
}

/// The argument buffer of a kernel without bias.
pub fn build_kernargs(
    x_addr: u64,
    wt_addr: u64,
    y_addr: u64,
    k: u32,
    n: u32,
    m: u32,
    cfg: &GemmConfig,
) -> (r: [u8; 44])
    requires
        y_stride(*cfg, m as nat, n as nat) <= u32::MAX,
    ensures
        r@ == kernarg_bytes(x_addr, wt_addr, y_addr, k, n, m, *cfg),
{
    let mut bytes = common_kernargs(x_addr, wt_addr, y_addr, k, n, stride_of(cfg, m, n));
    let mut b = u32_to_le_bytes(m);
    bytes.append(&mut b);
    let mut ka: [u8; 44] = [0u8; 44];
    let mut i: usize = 0;
    while i < 44
        invariant
            i <= 44,
            bytes@.len() == 44,
            ka@.len() == 44,
            forall|j: int| 0 <= j < i ==> ka@[j] == bytes@[j],
        decreases 44 - i,
    {
        ka[i] = bytes[i];
        i = i + 1;
    }
    assert(ka@ =~= bytes@);
    ka
}

/// The argument buffer of a kernel with bias.
pub fn build_kernargs_with_bias(
    x_addr: u64,
    wt_addr: u64,
    y_addr: u64,
    k: u32,
    n: u32,
    m: u32,
    cfg: &GemmConfig,
    bias_addr: u64,
) -> (r: [u8; 48])
    requires
        y_stride(*cfg, m as nat, n as nat) <= u32::MAX,
    ensures
        r@ == kernarg_bias_bytes(x_addr, wt_addr, y_addr, k, n, m, *cfg, bias_addr),
{
    let mut bytes = common_kernargs(x_addr, wt_addr, y_addr, k, n, stride_of(cfg, m, n));
    let mut b = u64_to_le_bytes(bias_addr);
    bytes.append(&mut b);
    let mut ka: [u8; 48] = [0u8; 48];
    let mut i: usize = 0;
    while i < 48
        invariant
            i <= 48,
            bytes@.len() == 48,
            ka@.len() == 48,
            forall|j: int| 0 <= j < i ==> ka@[j] == bytes@[j],
        decreases 48 - i,
    {
        ka[i] = bytes[i];
        i = i + 1;
    }
    assert(ka@ =~= bytes@);
    ka
}

/// Every argument can be read back from the buffer, at its place, with the numbers that
/// follow the common ones left open.
pub proof fn common_arguments_read_back(
    x: u64,
    wt: u64,
    y: u64,
    k: u32,
    n: u32,
    stride: u32,
    rest: Seq<u8>,
)
    ensures
        ({
            let b = common_bytes(x, wt, y, k, n, stride) + rest;
            &&& b.len() == 40 + rest.len()
            &&& u64_at(b, 0) == x
            &&& u64_at(b, 8) == wt
            &&& u64_at(b, 16) == y
            &&& u32_at(b, 24) == k
            &&& u32_at(b, 28) == n
            &&& u32_at(b, 32) == 0
            &&& u32_at(b, 36) == stride
            &&& b.subrange(40, b.len() as int) == rest
        }),
{
    lemma_auto_spec_u64_to_from_le_bytes();
    lemma_auto_spec_u32_to_from_le_bytes();
    let b = common_bytes(x, wt, y, k, n, stride) + rest;
    assert(spec_u64_to_le_bytes(x).len() == 8);
    assert(spec_u64_to_le_bytes(wt).len() == 8);
    assert(spec_u64_to_le_bytes(y).len() == 8);
    assert(spec_u32_to_le_bytes(k).len() == 4);
    assert(spec_u32_to_le_bytes(n).len() == 4);
    assert(spec_u32_to_le_bytes(0).len() == 4);
    assert(spec_u32_to_le_bytes(stride).len() == 4);
    assert(b.subrange(0, 8) =~= spec_u64_to_le_bytes(x));
    assert(b.subrange(8, 16) =~= spec_u64_to_le_bytes(wt));
    assert(b.subrange(16, 24) =~= spec_u64_to_le_bytes(y));
    assert(b.subrange(24, 28) =~= spec_u32_to_le_bytes(k));
    assert(b.subrange(28, 32) =~= spec_u32_to_le_bytes(n));
    assert(b.subrange(32, 36) =~= spec_u32_to_le_bytes(0));
    assert(b.subrange(36, 40) =~= spec_u32_to_le_bytes(stride));
    assert(b.subrange(40, b.len() as int) =~= rest);
}

/// The rows can be read back from a buffer without bias, and the address of the bias from
/// one with it.
pub proof fn last_argument_reads_back(
    x: u64,
    wt: u64,
    y: u64,
    k: u32,
    n: u32,
    m: u32,
    c: GemmConfig,
    bias: u64,
)
    ensures
        kernarg_bytes(x, wt, y, k, n, m, c).len() == 44,
        u32_at(kernarg_bytes(x, wt, y, k, n, m, c), 40) == m,
        kernarg_bias_bytes(x, wt, y, k, n, m, c, bias).len() == 48,
        u64_at(kernarg_bias_bytes(x, wt, y, k, n, m, c, bias), 40) == bias,
{
    lemma_auto_spec_u64_to_from_le_bytes();
    lemma_auto_spec_u32_to_from_le_bytes();
    assert(spec_u32_to_le_bytes(m).len() == 4);
    assert(spec_u64_to_le_bytes(bias).len() == 8);
    let stride = y_stride(c, m as nat, n as nat) as u32;
    common_arguments_read_back(x, wt, y, k, n, stride, spec_u32_to_le_bytes(m));
    common_arguments_read_back(x, wt, y, k, n, stride, spec_u64_to_le_bytes(bias));
}

// ── Backward products ──
// Forward is Y[M,N] = X[M,K] * W[N,K]^T. The gradient of the data is the product of
// dY[M,N] and W^T[K,N], contracted along N; that of the weights is the product of dY^T[N,M]
// and X^T[K,M], contracted along M. Both are forward products with other sizes.
/// The configuration for the gradient of the data, `dX[M,K]`.
pub fn auto_select_backward_data(m: u32, n_orig: u32, k_orig: u32) -> (r: GemmConfig)
    ensures
        r == selected(m, n_orig, k_orig),
{
    auto_select(m, n_orig, k_orig)
}

/// The argument buffer for the gradient of the data. The weights have to be transposed.
pub fn build_kernargs_backward_data(
    dy_addr: u64,
    w_addr: u64,
    dx_addr: u64,
    m: u32,
    n_orig: u32,
    k_orig: u32,
    cfg: &GemmConfig,
) -> (r: [u8; 44])
    requires
        y_stride(*cfg, m as nat, k_orig as nat) <= u32::MAX,
    ensures
        r@ == kernarg_bytes(dy_addr, w_addr, dx_addr, n_orig, k_orig, m, *cfg),
{
    build_kernargs(dy_addr, w_addr, dx_addr, n_orig, k_orig, m, cfg)
}

/// The grid for the gradient of the data.
pub fn compute_grid_backward_data(cfg: &GemmConfig, m: u32, k_orig: u32) -> (r: (u32, u32))
    requires
        is_pow2(layers_of(*cfg)),
        grid_fits(*cfg, m as nat, k_orig as nat, layers_of(*cfg)),
    ensures
        r.0 == grid_of(*cfg, m as nat, k_orig as nat, layers_of(*cfg)).0,
        r.1 == grid_of(*cfg, m as nat, k_orig as nat, layers_of(*cfg)).1,
{
    compute_grid_auto(cfg, m, k_orig)
}

/// The configuration for the gradient of the weights, `dW[N,K]`.
pub fn auto_select_backward_weight(m: u32, n_orig: u32, k_orig: u32) -> (r: GemmConfig)
    ensures
        r == selected(n_orig, m, k_orig),
{
    auto_select(n_orig, m, k_orig)
}

/// The argument buffer for the gradient of the weights. Both inputs have to be transposed.
pub fn build_kernargs_backward_weight(
    dy_t_addr: u64,
    x_t_addr: u64,
    dw_addr: u64,
    m: u32,
    n_orig: u32,
    k_orig: u32,
    cfg: &GemmConfig,
) -> (r: [u8; 44])
    requires
        y_stride(*cfg, n_orig as nat, k_orig as nat) <= u32::MAX,
    ensures
        r@ == kernarg_bytes(dy_t_addr, x_t_addr, dw_addr, m, k_orig, n_orig, *cfg),
{
    build_kernargs(dy_t_addr, x_t_addr, dw_addr, m, k_orig, n_orig, cfg)
}

/// The grid for the gradient of the weights.
pub fn compute_grid_backward_weight(cfg: &GemmConfig, n_orig: u32, k_orig: u32) -> (r: (
    u32,
    u32,
))
    requires
        is_pow2(layers_of(*cfg)),
        grid_fits(*cfg, n_orig as nat, k_orig as nat, layers_of(*cfg)),
    ensures
        r.0 == grid_of(*cfg, n_orig as nat, k_orig as nat, layers_of(*cfg)).0,
        r.1 == grid_of(*cfg, n_orig as nat, k_orig as nat, layers_of(*cfg)).1,
{
    compute_grid_auto(cfg, n_orig, k_orig)
}

} // verus!
