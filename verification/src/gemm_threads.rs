//! What the threads of a matrix multiplication kernel do: which pieces of the inputs they
//! load and where they put them, which fragments they multiply, and where they store the sums.
use vstd::arithmetic::power2::pow2;
use vstd::prelude::*;

use crate::compile::{KernelState, T0Kernel, arg_load_ops};
use crate::gemm_gen::{GemmConfig, standard_list, sweep_list};
use crate::gemm_lds::{
    Chunk, Context, GemmArgs, Plan, REG_LIMIT, ReadAddrs, Source, StoreRegs, Temps, ThreadIds,
    TileIds, accumulators_part, bias_value_part, chunk_part, context_part, declare_args_part,
    fill_part, first_products_part, gemm_arg_list, generable, gmem_load_part, groups4_part,
    groups8_part, later_rows_part, lds_store_part, lemma_acc_index, lemma_plan_bounds,
    lemma_wt_offset, load_bias_part, load_compute_fill_part, load_passes_part, load_side_part,
    loop_state_part, pass_stride_part, plan_of, products_part, read_addrs_part, read_frag_part,
    read_wts_part, row_base_of, row_bases_part, row_blocks_part, row_products_part, s_plus,
    scale_rows_part, shift_multiplies, shift_of, source_part, split_axis_part, store_cols_part,
    store_passes_part, store_regs_part, store_rows_part, store_values_part, temps_part,
    thread_ids_part, tile_ids_part, v_plus, wt_source_part, x_reads_part, x_source_part, zeros_part,
};
use crate::ir::{
    Alignment, OpOf, OpText, Operand, SOperand, SReg, SRegPair, VReg, Width, WmmaFormat,
};
use crate::threads::{
    Event, Machine, Section, Thread, after, lemma_first_lane, lemma_one_more, lemma_with_vs, step,
    wave_head,
};
use crate::tile_ssa::BinOpKind;

verus! {

broadcast use lemma_one_more;

/// A thread behind the operations of a kernel so far.
pub open spec fn at(x: Section, s: KernelState, t: u32) -> Thread {
    after(x, s.ops, t)
}

/// Whether the section has begun, and there is room for more registers.
pub open spec fn inside(x: Section, s: KernelState, vregs: nat, sregs: nat) -> bool {
    &&& x.from <= s.ops.len()
    &&& 1 <= s.next_vreg
    &&& s.next_vreg + vregs <= REG_LIMIT
    &&& s.next_sreg + sregs <= REG_LIMIT
}

/// Whether registers that were handed out before are as they were, and nothing was loaded or
/// stored.
pub open spec fn kept(a: Thread, b: Thread, s: KernelState) -> bool {
    &&& b.events == a.events
    &&& forall|r: u32| r < s.next_vreg ==> #[trigger] b.v[r] == a.v[r]
    &&& forall|r: u32| r < s.next_sreg ==> #[trigger] b.s[r] == a.s[r]
}

/// Masks with all lower bits set take remainders.
proof fn lemma_low_bits(x: u32)
    by (bit_vector)
    ensures
        x & 0 == 0,
        x & 1 == x % 2,
        x & 3 == x % 4,
        x & 7 == x % 8,
        x & 15 == x % 16,
        x & 31 == x % 32,
{
}

/// The thread number in lanes and waves.
#[verifier::spinoff_prover]
#[verifier::rlimit(60)]
proof fn lemma_thread_ids(x: Section, s: KernelState, t: u32)
    requires
        inside(x, s, 3, 1),
        at(x, s, t).v[0] == t,
        at(x, s, wave_head(t)).v[0] == wave_head(t),
    ensures
        ({
            let (s2, r) = thread_ids_part(s);
            let b = at(x, s2, t);
            &&& s2.next_vreg == s.next_vreg + 3
            &&& s2.next_sreg == s.next_sreg + 1
            &&& x.from <= s2.ops.len()
            &&& kept(at(x, s, t), b, s)
            &&& r.lane_id.0 < s2.next_vreg
            &&& r.lane_row.0 < s2.next_vreg
            &&& r.wave_id.0 < s2.next_sreg
            &&& b.v[r.lane_id.0] == t % 32
            &&& b.v[r.lane_row.0] == t % 16
            &&& b.s[r.wave_id.0] == t / 32
        }),
{
    reveal(thread_ids_part);
    vstd::arithmetic::power2::lemma2_to64();
    lemma_low_bits(t);
    lemma_low_bits((t % 32) as u32);
    let h = wave_head(t);
    let lane_id = VReg(s.next_vreg as u32);
    let ops = s.ops.push(
        OpOf::VAndB32 {
            dst: lane_id,
            src0: Operand::VReg(VReg(0)),
            src1: Operand::InlineInt(31 as i32),
        },
    );
    let wave = VReg((s.next_vreg + 1) as u32);
    let ops2 = ops.push(OpOf::VLshrrevB32 { dst: wave, shift: 5, src: VReg(0) });
    lemma_first_lane(x, ops2, SReg(s.next_sreg as u32), wave, t);
    assert(after(x, ops, h).v[0] == h);
    assert(after(x, ops2, h).v[wave.0] == h / 32);
    assert(h / 32 == t / 32);
    assert(t % 32 % 16 == t % 16);
}

/// The shifts of a plan multiply by the sizes that they stand for.
proof fn lemma_shifts(c: GemmConfig)
    requires
        generable(c),
    ensures
        ({
            let p = plan_of(c);
            &&& pow2(p.tile_m_shift as nat) == c.tile_m
            &&& pow2(p.tile_n_shift as nat) == c.tile_n
            &&& pow2(p.rpw_shift as nat) == c.wave_rows()
            &&& pow2(p.chunk_shift as nat) == c.tile_k / 8
            &&& pow2(p.split_shift as nat) == c.splits()
            &&& p.row_shift matches Some(n) ==> pow2(n as nat) == c.row_bytes()
            &&& p.row_stride == c.row_bytes()
            &&& p.chunks == c.tile_k / 8
            &&& p.rows_per_wave == c.wave_rows()
            &&& p.nrb == c.wave_rows() / 16
            &&& p.split_k == c.splits()
        }),
{
    lemma_small_shifts();
    shift_multiplies(c.tile_m as nat);
    shift_multiplies(c.tile_n as nat);
    shift_multiplies(c.wave_rows());
    shift_multiplies((c.tile_k / 8) as nat);
    shift_multiplies(c.splits() as nat);
    lemma_row_bytes(c);
    shift_multiplies(c.row_bytes());
}

/// Rows in the local data share are short.
proof fn lemma_row_bytes(c: GemmConfig)
    requires
        generable(c),
    ensures
        32 <= c.row_bytes() <= 4096,
{
    let rb = c.row_bytes();
    assert(c.tile_m * rb >= 16 * rb) by (nonlinear_arith)
        requires
            c.tile_m >= 16,
            rb >= 0,
    ;
}

/// Small powers of two are powers of two.
proof fn lemma_small_shifts()
    ensures
        shift_of(1) is Some,
        shift_of(2) is Some,
        shift_of(4) is Some,
        shift_of(8) is Some,
        shift_of(16) is Some,
        shift_of(32) is Some,
        shift_of(64) is Some,
        shift_of(128) is Some,
{
    assert(shift_of(1) is Some);
    assert(shift_of(2) is Some);
    assert(shift_of(4) is Some);
    assert(shift_of(8) is Some);
    assert(shift_of(16) is Some);
    assert(shift_of(32) is Some);
    assert(shift_of(64) is Some);
}

/// A matrix multiplication as a workgroup sees it.
pub struct Gemm {
    pub cfg: GemmConfig,
    pub machine: Machine,
}

impl Gemm {
    /// Whether the threads of a workgroup share its work evenly: whole waves, and whole passes
    /// over the rows of either input.
    pub open spec fn even(self) -> bool {
        &&& self.cfg.wg_size % 32 == 0
        &&& self.cfg.tile_m as nat % self.pass_rows() == 0
        &&& self.cfg.tile_n as nat % self.pass_rows() == 0
    }

    /// Sixteen-byte pieces of a row per turn.
    pub open spec fn pieces(self) -> nat {
        self.cfg.tile_k as nat / 8
    }

    /// Rows that the workgroup loads at once.
    pub open spec fn pass_rows(self) -> nat {
        self.cfg.wg_size as nat / self.pieces()
    }

    /// The row of a pass that a thread loads from.
    pub open spec fn load_row(self, t: u32) -> int {
        t as int / self.pieces() as int
    }

    /// The piece of its row that a thread loads.
    pub open spec fn piece(self, t: u32) -> int {
        t as int % self.pieces() as int
    }

    /// The 64-bit argument at a byte of the argument buffer.
    pub open spec fn address(self, offset: int) -> int {
        (self.machine.args)(offset) + 0x1_0000_0000 * (self.machine.args)(offset + 4)
    }

    /// Elements of a row of either input.
    pub open spec fn k(self) -> int {
        (self.machine.args)(24) as int
    }

    /// Elements of a row of the output.
    pub open spec fn n(self) -> int {
        (self.machine.args)(28) as int
    }

    /// Bytes between the outputs of two parts of K.
    pub open spec fn part_bytes(self) -> int {
        (self.machine.args)(36) as int
    }

    /// The part of K that the workgroup computes.
    pub open spec fn part(self) -> int {
        (self.machine.group)(1) as int % self.cfg.splits() as int
    }

    /// Elements of a part of K.
    pub open spec fn part_len(self) -> int {
        self.k() / self.cfg.splits() as int
    }

    /// The first row of the workgroup's tile.
    pub open spec fn row0(self) -> int {
        self.cfg.tile_m * if self.cfg.swap_grid {
            (self.machine.group)(1) as int / self.cfg.splits() as int
        } else {
            (self.machine.group)(0) as int
        }
    }

    /// The first column of the workgroup's tile.
    pub open spec fn col0(self) -> int {
        self.cfg.tile_n * if self.cfg.swap_grid {
            (self.machine.group)(0) as int
        } else {
            (self.machine.group)(1) as int / self.cfg.splits() as int
        }
    }

    /// Whether places within rows, inputs and outputs are 32-bit numbers, and addresses
    /// 64-bit numbers.
    pub open spec fn fits(self) -> bool {
        &&& generable(self.cfg)
        &&& self.cfg.tile_k <= self.k()
        &&& self.address(0) + 2 * self.k() * (self.row0() + self.cfg.tile_m) <= u64::MAX
        &&& self.address(8) + 2 * self.k() * (self.col0() + self.cfg.tile_n) <= u64::MAX
        &&& 2 * self.k() * (self.row0() + self.cfg.tile_m) <= u32::MAX
        &&& 2 * self.k() * (self.col0() + self.cfg.tile_n) <= u32::MAX
        &&& 4 * self.n() * (self.row0() + self.cfg.tile_m) <= u32::MAX
        &&& 4 * (self.col0() + self.cfg.tile_n) <= u32::MAX
        &&& self.row0() + self.cfg.tile_m <= u32::MAX
        &&& self.part() * self.part_bytes() <= u32::MAX
    }
}

/// Takes one grid axis apart.
#[verifier::spinoff_prover]
#[verifier::rlimit(60)]
proof fn lemma_split_axis(
    x: Section,
    s: KernelState,
    c: GemmConfig,
    dst: SReg,
    tgid: SReg,
    split_id: SReg,
    t: u32,
)
    requires
        inside(x, s, 0, 1),
        generable(c),
        dst.0 < s.next_sreg,
        tgid.0 < s.next_sreg,
        split_id.0 < s.next_sreg,
        dst != tgid,
        dst != split_id,
    ensures
        ({
            let s2 = split_axis_part(s, plan_of(c), dst, tgid, split_id);
            let a = at(x, s, t);
            let b = at(x, s2, t);
            &&& s2.next_vreg == s.next_vreg
            &&& s.next_sreg <= s2.next_sreg <= s.next_sreg + 1
            &&& x.from <= s2.ops.len()
            &&& b.events == a.events
            &&& b.v == a.v
            &&& forall|r: u32|
                r < s.next_sreg && r != dst.0 && r != split_id.0 ==> #[trigger] b.s[r] == a.s[r]
            &&& b.s[dst.0] == a.s[tgid.0] as int / c.splits() as int
            &&& b.s[split_id.0] == a.s[tgid.0] as int % c.splits() as int
        }),
{
    reveal(split_axis_part);
    lemma_shifts(c);
    let word = at(x, s, t).s[tgid.0];
    lemma_low_bits(word);
    let sk = c.splits() as int;
    let b = at(x, split_axis_part(s, plan_of(c), dst, tgid, split_id), t);
    if sk == 1 {
        assert(b.s[dst.0] == word);
        assert(b.s[split_id.0] == 0);
    } else if sk == 2 {
        assert(b.s[split_id.0] == word % 2);
    } else if sk == 4 {
        assert(b.s[split_id.0] == word % 4);
    } else if sk == 8 {
        assert(b.s[split_id.0] == word % 8);
    } else {
        assert(b.s[split_id.0] == word % 16);
    }
    assert(b.s[dst.0] == word as int / sk);
}

/// The end of the step that finds the tile: where the part of K begins and ends, and where
/// its output lies.
spec fn part_ids(s: KernelState, p: Plan, args: GemmArgs, split_id: SReg) -> KernelState {
    let n = s.next_sreg;
    let (k_end, k_start) = (SReg(n as u32), SReg((n + 1) as u32));
    let s = s.with_sregs(1, Alignment::Align1);
    if p.split_k <= 1 {
        s.with_op(
            OpOf::SAddU32 { dst: k_end, src0: args.k_dim, src1: SOperand::InlineInt(0) },
        ).with_sregs(1, Alignment::Align1).with_op(
            OpOf::SMov { dst: k_start, src: SOperand::InlineInt(0) },
        ).with_sregs(1, Alignment::Align1).with_op(
            OpOf::SMov { dst: SReg((n + 2) as u32), src: SOperand::InlineInt(0) },
        )
    } else {
        let part = SReg((n + 2) as u32);
        s.with_op(
            OpOf::SLshrB32 { dst: k_end, src: args.k_dim, shift: p.split_shift },
        ).with_sregs(1, Alignment::Align1).with_sregs(1, Alignment::Align1).with_op(
            OpOf::SMulI32 { dst: part, src0: split_id, src1: k_end },
        ).with_op(OpOf::SLshlB32 { dst: k_start, src: part, shift: 1 }).with_sregs(
            1,
            Alignment::Align1,
        ).with_op(
            OpOf::SMulI32 {
                dst: SReg((n + 3) as u32),
                src0: split_id,
                src1: args.y_split_stride,
            },
        )
    }
}

/// The part of K of a workgroup.
#[verifier::spinoff_prover]
#[verifier::rlimit(60)]
proof fn lemma_part_ids(
    x: Section,
    s: KernelState,
    g: Gemm,
    args: GemmArgs,
    split_id: SReg,
    t: u32,
)
    requires
        inside(x, s, 0, 4),
        g.fits(),
        args.k_dim.0 < s.next_sreg,
        args.y_split_stride.0 < s.next_sreg,
        split_id.0 < s.next_sreg,
        at(x, s, t).s[args.k_dim.0] == g.k(),
        at(x, s, t).s[args.y_split_stride.0] == g.part_bytes(),
        at(x, s, t).s[split_id.0] == g.part(),
    ensures
        ({
            let s2 = part_ids(s, plan_of(g.cfg), args, split_id);
            let n = s.next_sreg;
            let b = at(x, s2, t);
            &&& s2.next_vreg == s.next_vreg
            &&& n + 3 <= s2.next_sreg <= n + 4
            &&& x.from <= s2.ops.len()
            &&& kept(at(x, s, t), b, s)
            &&& b.v == at(x, s, t).v
            &&& b.s[n as u32] == g.part_len()
            &&& b.s[(n + 1) as u32] == 2 * g.part() * g.part_len()
            &&& b.s[(s2.next_sreg - 1) as u32] == g.part() * g.part_bytes()
        }),
{
    lemma_shifts(g.cfg);
    vstd::arithmetic::power2::lemma2_to64();
    let sk = g.cfg.splits() as int;
    assert(g.part() * g.part_len() <= g.k() && 0 <= g.part() * g.part_len()) by (nonlinear_arith)
        requires
            0 <= g.part() < sk,
            g.part_len() == g.k() / sk,
            0 <= g.k(),
    ;
    assert(2 * g.k() <= 2 * g.k() * (g.row0() + g.cfg.tile_m)) by {
        lemma_row0(g);
        assert(2 * g.k() <= 2 * g.k() * (g.row0() + g.cfg.tile_m)) by (nonlinear_arith)
            requires
                g.row0() + g.cfg.tile_m >= 1,
                0 <= g.k(),
        ;
    }
    assert(0 <= g.part() * g.part_bytes()) by (nonlinear_arith)
        requires
            0 <= g.part(),
            0 <= g.part_bytes(),
    ;
    assert(2 * g.part() * g.part_len() == 2 * (g.part() * g.part_len())) by (nonlinear_arith);
    assert(0 <= g.k() / sk <= g.k()) by (nonlinear_arith)
        requires
            0 <= g.k(),
            1 <= sk,
    ;
    let begin = g.part() * g.part_len();
    if sk == 1 {
        assert(begin == 0 && g.part() * g.part_bytes() == 0) by (nonlinear_arith)
            requires
                begin == g.part() * g.part_len(),
                g.part() == 0,
        ;
        assert(g.k() / sk == g.k()) by (nonlinear_arith)
            requires
                sk == 1,
        ;
        let k_end = SReg(s.next_sreg as u32);
        let s1 = s.with_op(
            OpOf::SAddU32 { dst: k_end, src0: args.k_dim, src1: SOperand::InlineInt(0) },
        );
        assert(at(x, s1, t).s[k_end.0] == g.part_len());
    } else {
        let p = plan_of(g.cfg);
        let n = s.next_sreg;
        let (k_end, k_start) = (SReg(n as u32), SReg((n + 1) as u32));
        let part = SReg((n + 2) as u32);
        let s1 = s.with_op(OpOf::SLshrB32 { dst: k_end, src: args.k_dim, shift: p.split_shift });
        let s2 = s1.with_op(OpOf::SMulI32 { dst: part, src0: split_id, src1: k_end });
        let s3 = s2.with_op(OpOf::SLshlB32 { dst: k_start, src: part, shift: 1 });
        assert(at(x, s1, t).s[k_end.0] == g.part_len());
        assert(at(x, s2, t).s[part.0] == begin);
        assert(begin * pow2(1) == 2 * begin) by (nonlinear_arith)
            requires
                pow2(1) == 2,
        ;
        assert(at(x, s3, t).s[k_start.0] == 2 * begin);
    }
    let n = s.next_sreg;
    let last = part_ids(s, plan_of(g.cfg), args, split_id);
    let b = at(x, last, t);
    assert(b.s[n as u32] == g.part_len());
    assert(b.s[(n + 1) as u32] == 2 * begin);
    assert(b.s[(last.next_sreg - 1) as u32] == g.part() * g.part_bytes());
    assert(kept(at(x, s, t), b, s));
}

/// Tiles lie at rows and columns from zero on.
proof fn lemma_row0(g: Gemm)
    requires
        generable(g.cfg),
    ensures
        g.row0() >= 0,
        g.col0() >= 0,
{
    let sk = g.cfg.splits() as int;
    let q = (g.machine.group)(1) as int / sk;
    assert(q >= 0);
    assert(g.cfg.tile_m * q >= 0 && g.cfg.tile_n * q >= 0) by (nonlinear_arith)
        requires
            q >= 0,
    ;
}

/// The tile and the part of K of a workgroup.
#[verifier::spinoff_prover]
#[verifier::rlimit(60)]
proof fn lemma_tile_ids(x: Section, s: KernelState, g: Gemm, args: GemmArgs, t: u32)
    requires
        inside(x, s, 0, 10),
        g.fits(),
        x.machine == g.machine,
        args.k_dim.0 < s.next_sreg,
        args.y_split_stride.0 < s.next_sreg,
        at(x, s, t).s[args.k_dim.0] == g.k(),
        at(x, s, t).s[args.y_split_stride.0] == g.part_bytes(),
    ensures
        ({
            let (s2, r) = tile_ids_part(s, plan_of(g.cfg), args);
            let b = at(x, s2, t);
            &&& s2.next_vreg == s.next_vreg
            &&& s.next_sreg <= s2.next_sreg <= s.next_sreg + 10
            &&& x.from <= s2.ops.len()
            &&& kept(at(x, s, t), b, s)
            &&& b.v == at(x, s, t).v
            &&& r.tile_col.0 < s2.next_sreg
            &&& r.tile_row.0 < s2.next_sreg
            &&& r.k_end.0 < s2.next_sreg
            &&& r.k_start.0 < s2.next_sreg
            &&& r.y_offset.0 < s2.next_sreg
            &&& g.cfg.tile_m * b.s[r.tile_row.0] == g.row0()
            &&& g.cfg.tile_n * b.s[r.tile_col.0] == g.col0()
            &&& b.s[r.k_end.0] == g.part_len()
            &&& b.s[r.k_start.0] == 2 * g.part() * g.part_len()
            &&& b.s[r.y_offset.0] == g.part() * g.part_bytes()
        }),
{
    let p = plan_of(g.cfg);
    let a = at(x, s, t);
    let n = s.next_sreg;
    let (tgid_x, tgid_y) = (SReg(n as u32), SReg((n + 1) as u32));
    let (tile_col, tile_row) = (SReg((n + 2) as u32), SReg((n + 3) as u32));
    let split_id = SReg((n + 4) as u32);
    let s1 = s.with_sregs(1, Alignment::Align1).with_op(
        OpOf::CaptureTgid { dst: tgid_x, axis: 0 },
    ).with_sregs(1, Alignment::Align1).with_op(
        OpOf::CaptureTgid { dst: tgid_y, axis: 1 },
    ).with_sregs(1, Alignment::Align1).with_sregs(1, Alignment::Align1).with_sregs(
        1,
        Alignment::Align1,
    );
    let (first, second) = if p.swap_grid {
        (tile_col, tile_row)
    } else {
        (tile_row, tile_col)
    };
    let s2 = s1.with_op(OpOf::SAddU32 { dst: first, src0: tgid_x, src1: SOperand::InlineInt(0) });
    let b2 = at(x, s2, t);
    assert(kept(a, b2, s));
    assert(b2.s[first.0] == (g.machine.group)(0));
    assert(b2.s[tgid_y.0] == (g.machine.group)(1));
    let s3 = split_axis_part(s2, p, second, tgid_y, split_id);
    lemma_split_axis(x, s2, g.cfg, second, tgid_y, split_id, t);
    let b3 = at(x, s3, t);
    assert(kept(a, b3, s));
    assert(b3.s[first.0] == (g.machine.group)(0));
    assert(b3.s[split_id.0] == g.part());
    assert(b3.s[args.k_dim.0] == g.k());
    assert(b3.s[args.y_split_stride.0] == g.part_bytes());
    lemma_part_ids(x, s3, g, args, split_id, t);
    assert(tile_ids_part(s, p, args).0 == part_ids(s3, p, args, split_id)) by {
        reveal(tile_ids_part);
    }
    assert(tile_ids_part(s, p, args).1 == TileIds {
        tile_col,
        tile_row,
        k_end: SReg(s3.next_sreg as u32),
        k_start: SReg((s3.next_sreg + 1) as u32),
        y_offset: SReg((part_ids(s3, p, args, split_id).next_sreg - 1) as u32),
    }) by {
        reveal(tile_ids_part);
    }
}

/// Handing out registers is no operation.
proof fn lemma_groups8(s: KernelState, n: u32)
    ensures
        groups8_part(s, n).ops == s.ops,
        groups8_part(s, n).next_vreg == s.next_vreg + 8 * n,
        groups8_part(s, n).next_sreg == s.next_sreg,
    decreases n,
{
    reveal(groups8_part);
    if n > 0 {
        lemma_groups8(s, (n - 1) as u32);
    }
}

/// Handing out registers is no operation.
proof fn lemma_groups4(s: KernelState, n: u32)
    ensures
        groups4_part(s, n).ops == s.ops,
        groups4_part(s, n).next_vreg == s.next_vreg + 4 * n,
        groups4_part(s, n).next_sreg == s.next_sreg,
    decreases n,
{
    reveal(groups4_part);
    if n > 0 {
        lemma_groups4(s, (n - 1) as u32);
    }
}

/// Registers are cleared one by one.
#[verifier::spinoff_prover]
#[verifier::rlimit(60)]
proof fn lemma_zeros(x: Section, s: KernelState, base: VReg, n: u32, t: u32)
    requires
        inside(x, s, 0, 0),
        base.0 + n <= u32::MAX,
    ensures
        ({
            let s2 = zeros_part(s, base, n);
            let (a, b) = (at(x, s, t), at(x, s2, t));
            &&& s2.next_vreg == s.next_vreg
            &&& s2.next_sreg == s.next_sreg
            &&& s.ops.len() <= s2.ops.len()
            &&& b.events == a.events
            &&& b.s == a.s
            &&& forall|r: u32| !(base.0 <= r < base.0 + n) ==> #[trigger] b.v[r] == a.v[r]
            &&& forall|r: u32| base.0 <= r < base.0 + n ==> #[trigger] b.v[r] == 0
        }),
    decreases n,
{
    reveal(zeros_part);
    if n > 0 {
        lemma_zeros(x, s, base, (n - 1) as u32, t);
    }
}

/// The sums start at zero.
#[verifier::spinoff_prover]
#[verifier::rlimit(60)]
proof fn lemma_accumulators(x: Section, s: KernelState, p: Plan, t: u32)
    requires
        inside(x, s, 256, 0),
        p.ok(),
    ensures
        ({
            let (s2, acc) = accumulators_part(s, p);
            let b = at(x, s2, t);
            &&& acc.0 == s.next_vreg
            &&& s2.next_vreg == s.next_vreg + 8 * (p.nrb * p.nct)
            &&& s2.next_sreg == s.next_sreg
            &&& s.ops.len() <= s2.ops.len()
            &&& 2 <= p.nrb * p.nct <= 32
            &&& kept(at(x, s, t), b, s)
            &&& b.s == at(x, s, t).s
            &&& forall|r: u32| acc.0 <= r < s2.next_vreg ==> #[trigger] b.v[r] == 0
        }),
{
    reveal(accumulators_part);
    let n = (p.nrb * p.nct) as u32;
    assert(2 <= p.nrb * p.nct <= 32) by (nonlinear_arith)
        requires
            1 <= p.nrb <= 4,
            2 <= p.nct <= 8,
    ;
    lemma_groups8(s, n);
    let s1 = groups8_part(s, n);
    assert(p.nrb * p.nct * 8 == 8 * (p.nrb * p.nct)) by (nonlinear_arith);
    lemma_zeros(x, s1, VReg(s.next_vreg as u32), (p.nrb * p.nct * 8) as u32, t);
}

/// The first rows of the blocks behind the first.
#[verifier::spinoff_prover]
#[verifier::rlimit(60)]
proof fn lemma_row_blocks(x: Section, s: KernelState, first: SReg, n: u32, t: u32)
    requires
        inside(x, s, 0, 3),
        n <= 3,
        first.0 < s.next_sreg,
        at(x, s, t).s[first.0] + 16 * n <= u32::MAX,
    ensures
        ({
            let s2 = row_blocks_part(s, first, n);
            let (a, b) = (at(x, s, t), at(x, s2, t));
            &&& s2.next_vreg == s.next_vreg
            &&& s2.next_sreg == s.next_sreg + n
            &&& s.ops.len() <= s2.ops.len()
            &&& kept(a, b, s)
            &&& b.v == a.v
            &&& forall|r: u32|
                s.next_sreg <= r < s.next_sreg + n ==> #[trigger] b.s[r] == a.s[first.0] + 16 * (r
                    - s.next_sreg + 1)
        }),
    decreases n,
{
    reveal(row_blocks_part);
    if n > 0 {
        lemma_row_blocks(x, s, first, (n - 1) as u32, t);
    }
}

/// The first row of each block of a wave, and the first column.
#[verifier::spinoff_prover]
#[verifier::rlimit(60)]
proof fn lemma_row_bases(
    x: Section,
    s: KernelState,
    g: Gemm,
    tile: TileIds,
    wave_id: SReg,
    t: u32,
)
    requires
        inside(x, s, 0, 6),
        g.fits(),
        tile.tile_row.0 < s.next_sreg,
        tile.tile_col.0 < s.next_sreg,
        wave_id.0 < s.next_sreg,
        t / 32 < g.cfg.waves(),
        g.cfg.tile_m * at(x, s, t).s[tile.tile_row.0] == g.row0(),
        g.cfg.tile_n * at(x, s, t).s[tile.tile_col.0] == g.col0(),
        at(x, s, t).s[wave_id.0] == t / 32,
    ensures
        ({
            let (s2, r) = row_bases_part(s, plan_of(g.cfg), tile, wave_id);
            let b = at(x, s2, t);
            &&& s2.next_vreg == s.next_vreg
            &&& s.next_sreg <= s2.next_sreg <= s.next_sreg + 6
            &&& s.ops.len() <= s2.ops.len()
            &&& kept(at(x, s, t), b, s)
            &&& b.v == at(x, s, t).v
            &&& r.base_n.0 < s2.next_sreg
            &&& b.s[r.base_n.0] == g.col0()
            &&& forall|i: u32|
                i < plan_of(g.cfg).nrb ==> (#[trigger] row_base_of(r, i)).0 < s2.next_sreg
                    && b.s[row_base_of(r, i).0] == g.row0() + (t / 32) * g.cfg.wave_rows() + 16
                    * i
        }),
{
    reveal(row_bases_part);
    let c = g.cfg;
    let p = plan_of(c);
    let a = at(x, s, t);
    lemma_shifts(c);
    lemma_row0(g);
    let (w, wr) = (t as int / 32, c.wave_rows() as int);
    assert(0 <= w * wr && w * wr + wr <= c.tile_m) by (nonlinear_arith)
        requires
            0 <= w < c.waves(),
            wr == c.tile_m as int / c.waves() as int,
    ;
    let n = s.next_sreg;
    let (first, wave_rows) = (SReg(n as u32), SReg((n + 1) as u32));
    let s1 = s.with_sregs(1, Alignment::Align1).with_op(
        OpOf::SLshlB32 { dst: first, src: tile.tile_row, shift: p.tile_m_shift },
    );
    assert(a.s[tile.tile_row.0] * c.tile_m == g.row0()) by (nonlinear_arith)
        requires
            c.tile_m * a.s[tile.tile_row.0] == g.row0(),
    ;
    assert(a.s[tile.tile_col.0] * c.tile_n == g.col0()) by (nonlinear_arith)
        requires
            c.tile_n * a.s[tile.tile_col.0] == g.col0(),
    ;
    assert(at(x, s1, t).s[first.0] == g.row0());
    let s2 = s1.with_sregs(1, Alignment::Align1).with_op(
        OpOf::SLshlB32 { dst: wave_rows, src: wave_id, shift: p.rpw_shift },
    );
    assert(at(x, s2, t).s[wave_rows.0] == w * wr);
    let s3 = s2.with_op(
        OpOf::SAddU32 { dst: first, src0: first, src1: SOperand::SReg(wave_rows) },
    );
    assert(at(x, s3, t).s[first.0] == g.row0() + w * wr);
    assert(kept(a, at(x, s3, t), s));
    let m = (p.nrb - 1) as u32;
    lemma_row_blocks(x, s3, first, m, t);
    let s4 = row_blocks_part(s3, first, m);
    let b4 = at(x, s4, t);
    assert(kept(a, b4, s));
    let (s5, r) = row_bases_part(s, p, tile, wave_id);
    let b5 = at(x, s5, t);
    assert(b5.s[r.base_n.0] == g.col0());
    assert forall|i: u32| i < p.nrb implies (#[trigger] row_base_of(r, i)).0 < s5.next_sreg
        && b5.s[row_base_of(r, i).0] == g.row0() + w * wr + 16 * i by {
        let q = row_base_of(r, i).0;
        assert(b5.s[q] == b4.s[q]);
    }
}

/// The row and the piece of it that a thread loads.
#[verifier::spinoff_prover]
#[verifier::rlimit(60)]
proof fn lemma_chunk(x: Section, s: KernelState, c: GemmConfig, t: u32)
    requires
        inside(x, s, 2, 0),
        generable(c),
        at(x, s, t).v[0] == t,
    ensures
        ({
            let (s2, r) = chunk_part(s, plan_of(c));
            let b = at(x, s2, t);
            &&& s2.next_vreg == s.next_vreg + 2
            &&& s2.next_sreg == s.next_sreg
            &&& s.ops.len() <= s2.ops.len()
            &&& kept(at(x, s, t), b, s)
            &&& r.row.0 == s.next_vreg
            &&& r.col.0 == s.next_vreg + 1
            &&& b.v[r.row.0] == t / (c.tile_k / 8) as u32
            &&& b.v[r.col.0] == t % (c.tile_k / 8) as u32
        }),
{
    reveal(chunk_part);
    lemma_shifts(c);
    lemma_low_bits(t);
}

/// A row number times the bytes of a row.
#[verifier::spinoff_prover]
#[verifier::rlimit(60)]
proof fn lemma_scale_rows(
    x: Section,
    s: KernelState,
    c: GemmConfig,
    dst: VReg,
    src: VReg,
    t: u32,
)
    requires
        inside(x, s, 1, 1),
        generable(c),
        dst.0 < s.next_vreg,
        src.0 < s.next_vreg,
        at(x, s, t).v[src.0] * c.row_bytes() <= u32::MAX,
    ensures
        ({
            let s2 = scale_rows_part(s, plan_of(c), dst, src);
            let (a, b) = (at(x, s, t), at(x, s2, t));
            &&& s.next_vreg <= s2.next_vreg <= s.next_vreg + 1
            &&& s.next_sreg <= s2.next_sreg <= s.next_sreg + 1
            &&& s.ops.len() <= s2.ops.len()
            &&& b.events == a.events
            &&& forall|r: u32| r < s.next_vreg && r != dst.0 ==> #[trigger] b.v[r] == a.v[r]
            &&& forall|r: u32| r < s.next_sreg ==> #[trigger] b.s[r] == a.s[r]
            &&& b.v[dst.0] == a.v[src.0] * c.row_bytes()
        }),
{
    reveal(scale_rows_part);
    lemma_shifts(c);
    lemma_row_bytes(c);
    let y = at(x, s, t).v[src.0];
    assert(0 <= y * c.row_bytes()) by (nonlinear_arith)
        requires
            0 <= y,
    ;
}

/// A sum of a 64-bit number and a word, in two steps.
proof fn lemma_pair_sum(m: Machine, th: Thread, r: VReg, y: VReg)
    requires
        r.0 < u32::MAX,
        th.pair(r) + th.v[y.0] < 0x1_0000_0000_0000_0000,
    ensures
        ({
            let low = step(OpOf::VAddCo { dst: r, src0: r, src1: y }, m, th);
            let next = VReg((r.0 + 1) as u32);
            let b = step(OpOf::VAddCoCi { dst: next, src: next }, m, low);
            &&& b.pair(r) == th.pair(r) + th.v[y.0]
            &&& b.events == th.events
            &&& b.s == th.s
            &&& b.scc == th.scc
            &&& forall|q: u32| q != r.0 && q != r.0 + 1 ==> #[trigger] b.v[q] == th.v[q]
        }),
{
}

/// Where a thread loads an input from and where it puts it.
#[verifier::spinoff_prover]
#[verifier::rlimit(60)]
proof fn lemma_source(
    x: Section,
    s: KernelState,
    c: GemmConfig,
    ptr: SRegPair,
    chunk: Chunk,
    abs_row: VReg,
    base: SReg,
    k_vreg: VReg,
    t: u32,
)
    requires
        inside(x, s, 6, 1),
        generable(c),
        ptr.0 + 1 < s.next_sreg,
        base.0 < s.next_sreg,
        chunk.row.0 < s.next_vreg,
        chunk.col.0 < s.next_vreg,
        abs_row.0 < s.next_vreg,
        k_vreg.0 < s.next_vreg,
        abs_row != chunk.row,
        abs_row != chunk.col,
        abs_row != k_vreg,
        ({
            let a = at(x, s, t);
            let (row, col, k) = (a.v[chunk.row.0], a.v[chunk.col.0], a.v[k_vreg.0]);
            let from = a.s[ptr.0] + 0x1_0000_0000 * a.s[(ptr.0 + 1) as u32];
            &&& a.s[base.0] + row <= u32::MAX
            &&& 2 * k * (a.s[base.0] + row) + 16 * col <= u32::MAX
            &&& from + 2 * k * (a.s[base.0] + row) + 16 * col < 0x1_0000_0000_0000_0000
            &&& row * c.row_bytes() + 16 * col <= u32::MAX
        }),
    ensures
        ({
            let (s2, r) = source_part(s, plan_of(c), ptr, chunk, abs_row, base, k_vreg);
            let (a, b) = (at(x, s, t), at(x, s2, t));
            let (row, col, k) = (a.v[chunk.row.0], a.v[chunk.col.0], a.v[k_vreg.0]);
            let from = a.s[ptr.0] + 0x1_0000_0000 * a.s[(ptr.0 + 1) as u32];
            &&& s.next_vreg <= s2.next_vreg <= s.next_vreg + 6
            &&& s.next_sreg <= s2.next_sreg <= s.next_sreg + 1
            &&& s.ops.len() <= s2.ops.len()
            &&& b.events == a.events
            &&& forall|q: u32| q < s.next_vreg && q != abs_row.0 ==> #[trigger] b.v[q] == a.v[q]
            &&& forall|q: u32| q < s.next_sreg ==> #[trigger] b.s[q] == a.s[q]
            &&& s.next_vreg <= r.gmem.0
            &&& r.gmem.0 + 1 < r.lds.0 < s2.next_vreg
            &&& b.pair(r.gmem) == from + 2 * k * (a.s[base.0] + row) + 16 * col
            &&& b.v[r.lds.0] == row * c.row_bytes() + 16 * col
        }),
{
    reveal(source_part);
    vstd::arithmetic::power2::lemma2_to64();
    let p = plan_of(c);
    let a = at(x, s, t);
    let (row, col, k) = (a.v[chunk.row.0], a.v[chunk.col.0], a.v[k_vreg.0]);
    let from = a.s[ptr.0] + 0x1_0000_0000 * a.s[(ptr.0 + 1) as u32];
    let abs = a.s[base.0] + row;
    let n = s.next_vreg;
    let (row_byte, col_byte) = (VReg(n as u32), VReg((n + 1) as u32));
    let (gmem, lds) = (VReg((n + 2) as u32), VReg((n + 4) as u32));
    assert(abs * k == k * abs && 2 * k * abs == 2 * (k * abs) && 0 <= k * abs) by (nonlinear_arith)
        requires
            0 <= k,
            0 <= abs,
    ;
    let s1 = s.with_op(OpOf::VMovFromSgpr { dst: abs_row, src: base }).with_op(
        OpOf::VAddU32 {
            dst: abs_row,
            src0: Operand::VReg(abs_row),
            src1: Operand::VReg(chunk.row),
        },
    );
    let b1 = at(x, s1, t);
    assert(b1.v[abs_row.0] == abs);
    let s2 = s1.with_vregs(1, Alignment::Align1).with_op(
        OpOf::VMulLoU32 { dst: row_byte, src0: abs_row, src1: k_vreg },
    ).with_op(OpOf::VLshlrevB32 { dst: row_byte, shift: 1, src: row_byte });
    let b2 = at(x, s2, t);
    assert(k * abs * pow2(1) == 2 * (k * abs)) by (nonlinear_arith)
        requires
            pow2(1) == 2,
    ;
    assert(b2.v[row_byte.0] == 2 * (k * abs));
    let s3 = s2.with_vregs(1, Alignment::Align1).with_op(
        OpOf::VLshlrevB32 { dst: col_byte, shift: 4, src: chunk.col },
    ).with_op(
        OpOf::VAddU32 {
            dst: row_byte,
            src0: Operand::VReg(row_byte),
            src1: Operand::VReg(col_byte),
        },
    );
    let b3 = at(x, s3, t);
    assert(col * pow2(4) == 16 * col) by (nonlinear_arith)
        requires
            pow2(4) == 16,
    ;
    assert(b3.v[col_byte.0] == 16 * col);
    assert(b3.v[row_byte.0] == 2 * (k * abs) + 16 * col);
    let s4 = s3.with_vregs(2, Alignment::Align2).with_op(
        OpOf::VMovFromSgpr { dst: gmem, src: SReg(ptr.0) },
    ).with_op(
        OpOf::VMovFromSgpr { dst: v_plus(gmem, 1), src: s_plus(SReg(ptr.0), 1) },
    );
    let b4 = at(x, s4, t);
    assert(b4.pair(gmem) == from);
    assert(b4.v[row_byte.0] == 2 * (k * abs) + 16 * col);
    let s5 = s4.with_op(OpOf::VAddCo { dst: gmem, src0: gmem, src1: row_byte }).with_op(
        OpOf::VAddCoCi { dst: v_plus(gmem, 1), src: v_plus(gmem, 1) },
    );
    let b5 = at(x, s5, t);
    lemma_pair_sum(x.machine, b4, gmem, row_byte);
    assert(b5.pair(gmem) == from + 2 * k * abs + 16 * col);
    assert(b5.v[col_byte.0] == 16 * col);
    assert(forall|q: u32| q < n && q != abs_row.0 ==> #[trigger] b5.v[q] == a.v[q]);
    let s6 = s5.with_vregs(1, Alignment::Align1);
    assert(0 <= row * c.row_bytes()) by (nonlinear_arith)
        requires
            0 <= row,
    ;
    lemma_scale_rows(x, s6, c, lds, chunk.row, t);
    let s7 = scale_rows_part(s6, p, lds, chunk.row);
    let b7 = at(x, s7, t);
    assert(b7.v[col_byte.0] == 16 * col);
    assert(b7.v[gmem.0] == b5.v[gmem.0] && b7.v[(gmem.0 + 1) as u32] == b5.v[(gmem.0 + 1) as u32]);
    let (s8, r) = source_part(s, p, ptr, chunk, abs_row, base, k_vreg);
    assert(r == Source { gmem, lds });
}

/// What a thread loads lies within the tile.
#[verifier::spinoff_prover]
#[verifier::rlimit(60)]
proof fn lemma_load_row(g: Gemm, t: u32)
    requires
        g.fits(),
        g.even(),
        t < g.cfg.wg_size,
    ensures
        0 <= g.load_row(t) < g.pass_rows(),
        0 <= g.piece(t) < g.pieces(),
        1 <= g.pass_rows() <= g.cfg.tile_m,
        g.pass_rows() <= g.cfg.tile_n,
        g.pass_rows() * g.pieces() == g.cfg.wg_size,
        0 <= g.load_row(t) * g.cfg.row_bytes() <= 128 * 4096,
        2 * g.k() * (g.row0() + g.load_row(t)) + 16 * g.piece(t) <= 2 * g.k() * (g.row0()
            + g.cfg.tile_m),
        2 * g.k() * (g.col0() + g.load_row(t)) + 16 * g.piece(t) <= 2 * g.k() * (g.col0()
            + g.cfg.tile_n),
{
    let (pieces, rows) = (g.pieces() as int, g.pass_rows() as int);
    let (tm, tn) = (g.cfg.tile_m as int, g.cfg.tile_n as int);
    lemma_row0(g);
    lemma_row_bytes(g.cfg);
    lemma_pass_rows(g.cfg.wg_size as int, pieces, t as int);
    lemma_divisor(tm, rows);
    lemma_divisor(tn, rows);
    let (r, k) = (g.load_row(t), g.k());
    lemma_small_product(r, g.cfg.row_bytes() as int, 128, 4096);
    lemma_next_row(k, g.row0(), r, tm);
    lemma_next_row(k, g.col0(), r, tn);
}

/// Threads fill rows of pieces.
proof fn lemma_pass_rows(wg: int, pieces: int, t: int)
    requires
        0 <= t < wg,
        wg % 32 == 0,
        pieces == 2 || pieces == 4 || pieces == 8,
    ensures
        0 <= t / pieces < wg / pieces,
        0 <= t % pieces < pieces,
        wg / pieces * pieces == wg,
        1 <= wg / pieces,
{
}

/// A divisor is no larger.
proof fn lemma_divisor(a: int, b: int)
    requires
        1 <= a,
        1 <= b,
        a % b == 0,
    ensures
        b <= a,
{
    if b > a {
        vstd::arithmetic::div_mod::lemma_small_mod(a as nat, b as nat);
    }
}

/// Small factors have a small product.
proof fn lemma_small_product(a: int, b: int, m: int, n: int)
    requires
        0 <= a <= m,
        0 <= b <= n,
    ensures
        0 <= a * b <= m * n,
{
    assert(0 <= a * b <= m * n) by (nonlinear_arith)
        requires
            0 <= a <= m,
            0 <= b <= n,
    ;
}

/// A row ends before the rows of a tile end.
proof fn lemma_next_row(k: int, first: int, r: int, rows: int)
    requires
        r + 1 <= rows,
        0 <= k,
    ensures
        2 * k * (first + r) + 2 * k <= 2 * k * (first + rows),
{
    assert(2 * k * (first + r) + 2 * k <= 2 * k * (first + rows)) by (nonlinear_arith)
        requires
            r + 1 <= rows,
            0 <= k,
    ;
}

/// The place of a sixteen-byte piece in a buffer of the local data share.
pub open spec fn shared_place(c: GemmConfig, row: int, piece: int) -> int {
    row * c.row_bytes() + 16 * piece
}

/// Where a thread loads the left input from and where it puts it.
#[verifier::spinoff_prover]
#[verifier::rlimit(60)]
proof fn lemma_x_source(
    x: Section,
    s: KernelState,
    g: Gemm,
    ptr: SRegPair,
    tile_row: SReg,
    k_vreg: VReg,
    t: u32,
)
    requires
        inside(x, s, 9, 2),
        g.fits(),
        g.even(),
        t < g.cfg.wg_size,
        ptr.0 + 1 < s.next_sreg,
        tile_row.0 < s.next_sreg,
        k_vreg.0 < s.next_vreg,
        ({
            let a = at(x, s, t);
            &&& a.v[0] == t
            &&& a.v[k_vreg.0] == g.k()
            &&& g.cfg.tile_m * a.s[tile_row.0] == g.row0()
            &&& a.s[ptr.0] + 0x1_0000_0000 * a.s[(ptr.0 + 1) as u32] == g.address(0)
        }),
    ensures
        ({
            let (s2, r) = x_source_part(s, plan_of(g.cfg), ptr, tile_row, k_vreg);
            let b = at(x, s2, t);
            &&& s.next_vreg <= s2.next_vreg <= s.next_vreg + 9
            &&& s.next_sreg <= s2.next_sreg <= s.next_sreg + 2
            &&& s.ops.len() <= s2.ops.len()
            &&& kept(at(x, s, t), b, s)
            &&& s.next_vreg <= r.gmem.0
            &&& r.gmem.0 + 1 < r.lds.0 < s2.next_vreg
            &&& b.pair(r.gmem) == g.address(0) + 2 * g.k() * (g.row0() + g.load_row(t)) + 16
                * g.piece(t)
            &&& b.v[r.lds.0] == shared_place(g.cfg, g.load_row(t), g.piece(t))
        }),
{
    reveal(x_source_part);
    let c = g.cfg;
    let p = plan_of(c);
    let a = at(x, s, t);
    lemma_shifts(c);
    lemma_row0(g);
    lemma_load_row(g, t);
    lemma_chunk(x, s, c, t);
    let (s1, chunk) = chunk_part(s, p);
    let abs_row = VReg(s1.next_vreg as u32);
    let base = SReg(s1.next_sreg as u32);
    let s2 = s1.with_vregs(1, Alignment::Align1).with_sregs(1, Alignment::Align1).with_op(
        OpOf::SLshlB32 { dst: base, src: tile_row, shift: p.tile_m_shift },
    );
    assert(a.s[tile_row.0] * c.tile_m == g.row0()) by (nonlinear_arith)
        requires
            c.tile_m * a.s[tile_row.0] == g.row0(),
    ;
    let b2 = at(x, s2, t);
    assert(b2.s[base.0] == g.row0());
    assert(b2.v[chunk.row.0] == g.load_row(t));
    assert(b2.v[chunk.col.0] == g.piece(t));
    assert(b2.v[k_vreg.0] == g.k());
    lemma_source(x, s2, c, ptr, chunk, abs_row, base, k_vreg, t);
}

/// Where a thread loads the right input from and where it puts it.
#[verifier::spinoff_prover]
#[verifier::rlimit(60)]
proof fn lemma_wt_source(
    x: Section,
    s: KernelState,
    g: Gemm,
    ptr: SRegPair,
    base_n: SReg,
    k_vreg: VReg,
    t: u32,
)
    requires
        inside(x, s, 9, 1),
        g.fits(),
        g.even(),
        t < g.cfg.wg_size,
        ptr.0 + 1 < s.next_sreg,
        base_n.0 < s.next_sreg,
        k_vreg.0 < s.next_vreg,
        ({
            let a = at(x, s, t);
            &&& a.v[0] == t
            &&& a.v[k_vreg.0] == g.k()
            &&& a.s[base_n.0] == g.col0()
            &&& a.s[ptr.0] + 0x1_0000_0000 * a.s[(ptr.0 + 1) as u32] == g.address(8)
        }),
    ensures
        ({
            let (s2, r) = wt_source_part(s, plan_of(g.cfg), ptr, base_n, k_vreg);
            let b = at(x, s2, t);
            &&& s.next_vreg <= s2.next_vreg <= s.next_vreg + 9
            &&& s.next_sreg <= s2.next_sreg <= s.next_sreg + 1
            &&& s.ops.len() <= s2.ops.len()
            &&& kept(at(x, s, t), b, s)
            &&& s.next_vreg <= r.gmem.0
            &&& r.gmem.0 + 1 < r.lds.0 < s2.next_vreg
            &&& b.pair(r.gmem) == g.address(8) + 2 * g.k() * (g.col0() + g.load_row(t)) + 16
                * g.piece(t)
            &&& b.v[r.lds.0] == g.cfg.tile_m * g.cfg.row_bytes() + shared_place(
                g.cfg,
                g.load_row(t),
                g.piece(t),
            )
        }),
{
    reveal(wt_source_part);
    let c = g.cfg;
    let p = plan_of(c);
    lemma_shifts(c);
    lemma_row0(g);
    lemma_load_row(g, t);
    lemma_chunk(x, s, c, t);
    let (s1, chunk) = chunk_part(s, p);
    let abs_row = VReg(s1.next_vreg as u32);
    let s2 = s1.with_vregs(1, Alignment::Align1);
    let b2 = at(x, s2, t);
    assert(b2.v[chunk.row.0] == g.load_row(t));
    assert(b2.v[chunk.col.0] == g.piece(t));
    assert(b2.v[k_vreg.0] == g.k());
    lemma_source(x, s2, c, ptr, chunk, abs_row, base_n, k_vreg, t);
    let (s3, src) = source_part(s2, p, ptr, chunk, abs_row, base_n, k_vreg);
    assert(0 <= c.tile_m * c.row_bytes()) by (nonlinear_arith)
        requires
            0 <= c.row_bytes(),
    ;
    assert(0 <= c.tile_n * c.row_bytes()) by (nonlinear_arith)
        requires
            0 <= c.row_bytes(),
    ;
    assert(p.lds_x == c.tile_m * c.row_bytes());
    let s4 = s3.with_op(
        OpOf::VAddU32 {
            dst: src.lds,
            src0: Operand::VReg(src.lds),
            src1: Operand::InlineInt(p.lds_x as i32),
        },
    );
    assert(at(x, s4, t).v[src.lds.0] == p.lds_x + at(x, s3, t).v[src.lds.0]);
}

/// Where the fragments of the left input begin, block by block.
#[verifier::spinoff_prover]
#[verifier::rlimit(60)]
proof fn lemma_x_reads(
    x: Section,
    s: KernelState,
    p: Plan,
    wave_off: SReg,
    lane_off: VReg,
    n: u32,
    t: u32,
)
    requires
        inside(x, s, 4, 0),
        p.ok(),
        n <= 4,
        wave_off.0 < s.next_sreg,
        lane_off.0 < s.next_vreg,
        at(x, s, t).s[wave_off.0] + at(x, s, t).v[lane_off.0] <= 0x1000_0000,
    ensures
        ({
            let s2 = x_reads_part(s, p, wave_off, lane_off, n);
            let (a, b) = (at(x, s, t), at(x, s2, t));
            &&& s2.next_vreg == s.next_vreg + n
            &&& s2.next_sreg == s.next_sreg
            &&& s.ops.len() <= s2.ops.len()
            &&& kept(a, b, s)
            &&& b.s == a.s
            &&& forall|r: u32|
                s.next_vreg <= r < s.next_vreg + n ==> #[trigger] b.v[r] == a.s[wave_off.0]
                    + a.v[lane_off.0] + 16 * (r - s.next_vreg) * p.row_stride
        }),
    decreases n,
{
    reveal(x_reads_part);
    if n > 0 {
        let i = (n - 1) as u32;
        lemma_x_reads(x, s, p, wave_off, lane_off, i, t);
        assert(0 <= i * 16 * p.row_stride <= 64 * 4096) by (nonlinear_arith)
            requires
                0 <= i < 4,
                0 <= p.row_stride <= 4096,
        ;
        assert(16 * i * p.row_stride == i * 16 * p.row_stride) by (nonlinear_arith);
        let s1 = x_reads_part(s, p, wave_off, lane_off, i);
        let (a, b1) = (at(x, s, t), at(x, s1, t));
        let dst = VReg(s1.next_vreg as u32);
        let s2 = s1.with_vregs(1, Alignment::Align1).with_op(
            OpOf::VMovFromSgpr { dst, src: wave_off },
        ).with_op(
            OpOf::VAddU32 { dst, src0: Operand::VReg(dst), src1: Operand::VReg(lane_off) },
        );
        let b2 = at(x, s2, t);
        assert(b2.v[dst.0] == a.s[wave_off.0] + a.v[lane_off.0]);
        let b = at(x, x_reads_part(s, p, wave_off, lane_off, n), t);
        assert(b.v[dst.0] == a.s[wave_off.0] + a.v[lane_off.0] + i * 16 * p.row_stride) by {
            if i == 0 {
                assert(i * 16 * p.row_stride == 0) by (nonlinear_arith)
                    requires
                        i == 0,
                ;
            }
        }
        assert forall|r: u32| s.next_vreg <= r < s.next_vreg + n implies #[trigger] b.v[r]
            == a.s[wave_off.0] + a.v[lane_off.0] + 16 * (r - s.next_vreg) * p.row_stride by {
            if r != dst.0 {
                assert(b.v[r] == b1.v[r]);
            }
        }
    }
}

/// The row of its wave's block that a lane reads, from the first row of the tile on.
pub open spec fn read_row(c: GemmConfig, t: u32, block: int) -> int {
    t as int / 32 * c.wave_rows() + 16 * block + t as int % 16
}

/// Where the fragments begin in a buffer.
#[verifier::spinoff_prover]
#[verifier::rlimit(60)]
proof fn lemma_read_addrs(x: Section, s: KernelState, g: Gemm, thread: ThreadIds, t: u32)
    requires
        inside(x, s, 8, 4),
        g.fits(),
        plan_of(g.cfg).ok(),
        t / 32 < g.cfg.waves(),
        thread.lane_row.0 < s.next_vreg,
        thread.wave_id.0 < s.next_sreg,
        at(x, s, t).v[thread.lane_row.0] == t % 16,
        at(x, s, t).s[thread.wave_id.0] == t / 32,
    ensures
        ({
            let (s2, r) = read_addrs_part(s, plan_of(g.cfg), thread);
            let b = at(x, s2, t);
            let nrb = plan_of(g.cfg).nrb;
            &&& s.next_vreg <= s2.next_vreg <= s.next_vreg + 8
            &&& s.next_sreg <= s2.next_sreg <= s.next_sreg + 4
            &&& s.ops.len() <= s2.ops.len()
            &&& kept(at(x, s, t), b, s)
            &&& s.next_vreg <= r.x.0
            &&& r.x.0 + nrb <= r.wt.0 < s2.next_vreg
            &&& forall|i: u32|
                i < nrb ==> b.v[#[trigger] v_plus(r.x, i).0] == shared_place(
                    g.cfg,
                    read_row(g.cfg, t, i as int),
                    0,
                )
            &&& b.v[r.wt.0] == shared_place(g.cfg, t as int % 16, 0)
        }),
{
    reveal(read_addrs_part);
    let c = g.cfg;
    let p = plan_of(c);
    let a = at(x, s, t);
    lemma_shifts(c);
    lemma_row_bytes(c);
    let rb = c.row_bytes() as int;
    let (w, wr, lane) = (t as int / 32, c.wave_rows() as int, t as int % 16);
    lemma_small_product(lane, rb, 15, 4096);
    lemma_small_product(wr, rb, 64, 4096);
    assert(w < 8) by {
        if w >= 8 {
            assert((c.tile_m as int) / (c.waves() as int) < 16) by (nonlinear_arith)
                requires
                    c.tile_m <= 128,
                    c.waves() > 8,
            ;
        }
    }
    lemma_small_product(w, wr * rb, 8, 262144);
    let lane_off = VReg(s.next_vreg as u32);
    let s1 = s.with_vregs(1, Alignment::Align1);
    lemma_scale_rows(x, s1, c, lane_off, thread.lane_row, t);
    let s2 = scale_rows_part(s1, p, lane_off, thread.lane_row);
    let b2 = at(x, s2, t);
    let (wave_off, wave_stride) = (SReg(s2.next_sreg as u32), SReg((s2.next_sreg + 1) as u32));
    let s3 = s2.with_sregs(1, Alignment::Align1).with_sregs(1, Alignment::Align1).with_op(
        OpOf::SMov {
            dst: wave_stride,
            src: SOperand::InlineInt((p.rows_per_wave * p.row_stride) as i32),
        },
    ).with_op(OpOf::SMulI32 { dst: wave_off, src0: thread.wave_id, src1: wave_stride });
    let b3 = at(x, s3, t);
    assert(b3.s[wave_off.0] == w * (wr * rb));
    assert(b3.v[lane_off.0] == lane * rb);
    assert(kept(a, b3, s));
    lemma_x_reads(x, s3, p, wave_off, lane_off, p.nrb, t);
    let s4 = x_reads_part(s3, p, wave_off, lane_off, p.nrb);
    let b4 = at(x, s4, t);
    assert(kept(a, b4, s));
    let wt = VReg(s4.next_vreg as u32);
    let s5 = s4.with_vregs(1, Alignment::Align1);
    lemma_scale_rows(x, s5, c, wt, thread.lane_row, t);
    let s6 = scale_rows_part(s5, p, wt, thread.lane_row);
    let b6 = at(x, s6, t);
    let (s7, r) = read_addrs_part(s, p, thread);
    assert(s7 == s6);
    assert(r == ReadAddrs { x: VReg(s3.next_vreg as u32), wt });
    assert forall|i: u32| i < p.nrb implies b6.v[#[trigger] v_plus(r.x, i).0] == shared_place(
        c,
        read_row(c, t, i as int),
        0,
    ) by {
        let q = v_plus(r.x, i).0;
        assert(b6.v[q] == b4.v[q]);
        assert(w * (wr * rb) + lane * rb + 16 * i * rb == (w * wr + 16 * i + lane) * rb)
            by (nonlinear_arith);
    }
}

/// The registers that steps share, one group behind another.
pub open spec fn ranked_temps(p: Plan, from: nat, r: Temps, to: nat) -> bool {
    &&& r.gmem_x.0 == from
    &&& r.gmem_wt.0 == r.gmem_x.0 + 4 * p.x_loads
    &&& r.x_frags.0 == r.gmem_wt.0 + 4 * p.wt_loads
    &&& r.wt_frags.0 == r.x_frags.0 + 8 * p.nrb
    &&& r.xa.0 == r.wt_frags.0 + 8 * p.nct
    &&& r.wa.0 == r.xa.0 + 2
    &&& r.lds_x.0 == r.wa.0 + 2
    &&& r.lds_w.0 == r.lds_x.0 + 1
    &&& r.frag.0 == r.lds_w.0 + 1
    &&& r.frag.0 + 1 == to
}

/// Those registers are handed out without an operation.
proof fn lemma_temps(s: KernelState, p: Plan)
    requires
        1 <= s.next_vreg,
        s.next_vreg + 1031 <= REG_LIMIT,
        p.ok(),
        0 < p.x_loads,
        0 < p.wt_loads,
    ensures
        ({
            let (s2, r) = temps_part(s, p);
            &&& s2.ops == s.ops
            &&& s2.next_sreg == s.next_sreg
            &&& s2.next_vreg <= s.next_vreg + 1031
            &&& ranked_temps(p, s.next_vreg, r, s2.next_vreg)
        }),
{
    reveal(temps_part);
    let s1 = groups4_part(s, p.x_loads);
    lemma_groups4(s, p.x_loads);
    let s2 = groups4_part(s1, p.wt_loads);
    lemma_groups4(s1, p.wt_loads);
    let s3 = groups8_part(s2, p.nrb);
    lemma_groups8(s2, p.nrb);
    lemma_groups8(s3, p.nct);
}

/// The bytes between the rows of two passes.
#[verifier::spinoff_prover]
#[verifier::rlimit(60)]
proof fn lemma_pass_stride(x: Section, s: KernelState, g: Gemm, k_vreg: VReg, t: u32)
    requires
        inside(x, s, 2, 1),
        g.fits(),
        plan_of(g.cfg).ok(),
        k_vreg.0 < s.next_vreg,
        at(x, s, t).v[k_vreg.0] == g.k(),
        2 * g.k() * g.pass_rows() <= u32::MAX,
    ensures
        ({
            let (s2, r) = pass_stride_part(s, plan_of(g.cfg), k_vreg);
            let b = at(x, s2, t);
            &&& s2.next_vreg == s.next_vreg + 2
            &&& s2.next_sreg == s.next_sreg + 1
            &&& s.ops.len() <= s2.ops.len()
            &&& kept(at(x, s, t), b, s)
            &&& r.0 == s.next_vreg
            &&& b.v[r.0] == 2 * g.k() * g.pass_rows()
        }),
{
    reveal(pass_stride_part);
    let p = plan_of(g.cfg);
    let k = g.k();
    let rows = g.pass_rows() as int;
    assert(p.rows_per_pass == rows);
    assert(k * (rows * 2) == 2 * k * rows && 0 <= 2 * k * rows) by (nonlinear_arith)
        requires
            0 <= k,
            0 <= rows,
    ;
}

/// How the loop starts.
#[verifier::spinoff_prover]
#[verifier::rlimit(60)]
proof fn lemma_loop_state(x: Section, s: KernelState, p: Plan, k_start: SReg, t: u32)
    requires
        inside(x, s, 3, 1),
        p.ok(),
        k_start.0 < s.next_sreg,
    ensures
        ({
            let (s2, r) = loop_state_part(s, p, k_start);
            let b = at(x, s2, t);
            &&& s2.next_vreg == s.next_vreg + 3
            &&& s2.next_sreg == s.next_sreg + 1
            &&& s.ops.len() <= s2.ops.len()
            &&& kept(at(x, s, t), b, s)
            &&& r.k_off.0 == s.next_vreg
            &&& r.buf0.0 == s.next_vreg + 1
            &&& r.buf1.0 == s.next_vreg + 2
            &&& r.k_iter.0 == s.next_sreg
            &&& b.v[r.k_off.0] == at(x, s, t).s[k_start.0]
            &&& b.s[r.k_iter.0] == 0
            &&& b.v[r.buf0.0] == 0
            &&& b.v[r.buf1.0] == p.lds_buf
        }),
{
    reveal(loop_state_part);
}

/// Loading an argument.
spec fn load_arg(sreg: u32, offset: u32, width: Width) -> OpText {
    OpOf::ScalarLoad {
        dst: SReg(sreg),
        base: SRegPair(T0Kernel::KERNARG_BASE_SENTINEL),
        offset,
        width,
    }
}

/// The arguments, loaded.
#[verifier::spinoff_prover]
#[verifier::rlimit(60)]
proof fn lemma_declare_args(x: Section, s: KernelState, p: Plan, t: u32)
    requires
        x.from <= s.ops.len(),
        s.args.len() == 0,
        s.kernarg_size == 0,
        s.next_sreg == 0,
    ensures
        ({
            let (s2, r) = declare_args_part(s, p);
            let b = at(x, s2, t);
            let words = x.machine.args;
            &&& s2.next_vreg == s.next_vreg
            &&& s2.next_sreg == if p.bias {
                12nat
            } else {
                10
            }
            &&& s.ops.len() <= s2.ops.len()
            &&& b.events == at(x, s, t).events
            &&& b.v == at(x, s, t).v
            &&& r == GemmArgs {
                x_ptr: SRegPair(0),
                wt_ptr: SRegPair(2),
                y_ptr: SRegPair(4),
                k_dim: SReg(6),
                n_dim: SReg(7),
                y_split_stride: SReg(9),
                bias: if p.bias {
                    Some(SRegPair(10))
                } else {
                    None
                },
            }
            &&& b.s[0] == words(0) && b.s[1] == words(4)
            &&& b.s[2] == words(8) && b.s[3] == words(12)
            &&& b.s[4] == words(16) && b.s[5] == words(20)
            &&& b.s[6] == words(24) && b.s[7] == words(28) && b.s[9] == words(36)
            &&& p.bias ==> b.s[10] == words(40) && b.s[11] == words(44)
        }),
{
    reveal(declare_args_part);
    let (s2, r) = declare_args_part(s, p);
    assert(s2.args =~= gemm_arg_list(p.bias));
    let common = s.ops.push(load_arg(0, 0, Width::B64)).push(load_arg(2, 8, Width::B64)).push(
        load_arg(4, 16, Width::B64),
    ).push(load_arg(6, 24, Width::B32)).push(load_arg(7, 28, Width::B32)).push(
        load_arg(8, 32, Width::B32),
    ).push(load_arg(9, 36, Width::B32));
    let loads = if p.bias {
        common.push(load_arg(10, 40, Width::B64))
    } else {
        common
    };
    assert(s.ops + arg_load_ops(gemm_arg_list(p.bias)) =~= loads);
    assert(s2.ops == loads.push(OpOf::WaitLgkmcnt(0)));
}

/// Whether register groups lie one behind another.
pub open spec fn ranked(c: Context, next_vreg: nat) -> bool {
    &&& c.thread.lane_id.0 < c.acc.0
    &&& c.thread.lane_row.0 < c.acc.0
    &&& c.acc.0 + 8 * (c.p.nrb * c.p.nct) <= c.x.gmem.0
    &&& c.x.gmem.0 + 1 < c.x.lds.0 < c.wt.gmem.0
    &&& c.wt.gmem.0 + 1 < c.wt.lds.0 < c.reads.x.0
    &&& c.reads.x.0 + c.p.nrb <= c.reads.wt.0 < c.temps.gmem_x.0
    &&& ranked_temps(c.p, c.temps.gmem_x.0 as nat, c.temps, c.x_stride.0 as nat)
    &&& c.x_stride.0 < c.wt_stride.0 < c.st.k_off.0 < c.st.buf0.0 < c.st.buf1.0 < next_vreg
    &&& next_vreg <= REG_LIMIT
    &&& c.tile.k_end.0 < c.st.k_iter.0
    &&& c.tile.y_offset.0 < c.st.k_iter.0
    &&& c.rows.base_n.0 < c.st.k_iter.0
    &&& c.args.y_ptr.0 + 1 < c.st.k_iter.0
    &&& c.args.n_dim.0 < c.st.k_iter.0
    &&& (c.args.bias matches Some(r) ==> r.0 + 1 < c.st.k_iter.0)
    &&& forall|i: u32| i < c.p.nrb ==> (#[trigger] row_base_of(c.rows, i)).0 < c.st.k_iter.0
    &&& c.st.k_iter.0 <= REG_LIMIT
}

/// Where a thread loads from in front of the first turn, without the offset along K.
pub open spec fn x_from(g: Gemm, t: u32) -> int {
    g.address(0) + 2 * g.k() * (g.row0() + g.load_row(t)) + 16 * g.piece(t)
}

/// The same for the right input.
pub open spec fn wt_from(g: Gemm, t: u32) -> int {
    g.address(8) + 2 * g.k() * (g.col0() + g.load_row(t)) + 16 * g.piece(t)
}

/// Bytes of the left input in a buffer; behind them lies the right input.
pub open spec fn x_shared(g: Gemm) -> int {
    g.cfg.tile_m * g.cfg.row_bytes()
}

/// What a thread knows from the start on: where it loads from, where it puts it, where it
/// reads fragments and where it stores sums.
pub open spec fn set_up(g: Gemm, c: Context, th: Thread, t: u32) -> bool {
    &&& c.p == plan_of(g.cfg)
    &&& th.pair(c.x.gmem) == x_from(g, t)
    &&& th.v[c.x.lds.0] == shared_place(g.cfg, g.load_row(t), g.piece(t))
    &&& th.pair(c.wt.gmem) == wt_from(g, t)
    &&& th.v[c.wt.lds.0] == x_shared(g) + shared_place(g.cfg, g.load_row(t), g.piece(t))
    &&& forall|i: u32|
        i < c.p.nrb ==> th.v[#[trigger] v_plus(c.reads.x, i).0] == shared_place(
            g.cfg,
            read_row(g.cfg, t, i as int),
            0,
        )
    &&& th.v[c.reads.wt.0] == shared_place(g.cfg, t as int % 16, 0)
    &&& th.v[c.x_stride.0] == 2 * g.k() * g.pass_rows()
    &&& th.v[c.wt_stride.0] == 2 * g.k() * g.pass_rows()
    &&& th.v[c.st.buf0.0] == 0
    &&& th.v[c.st.buf1.0] == c.p.lds_buf
    &&& th.v[c.thread.lane_id.0] == t % 32
    &&& th.v[c.thread.lane_row.0] == t % 16
    &&& th.s[c.tile.k_end.0] == g.part_len()
    &&& th.s[c.tile.y_offset.0] == g.part() * g.part_bytes()
    &&& forall|i: u32|
        i < c.p.nrb ==> th.s[(#[trigger] row_base_of(c.rows, i)).0] == g.row0() + (t / 32)
            * g.cfg.wave_rows() + 16 * i
    &&& th.s[c.rows.base_n.0] == g.col0()
    &&& th.s[c.args.n_dim.0] == g.n()
    &&& th.s[c.args.y_ptr.0] + 0x1_0000_0000 * th.s[(c.args.y_ptr.0 + 1) as u32] == g.address(16)
    &&& c.p.bias <==> c.args.bias is Some
    &&& (c.args.bias matches Some(r) ==> th.s[r.0] + 0x1_0000_0000 * th.s[(r.0 + 1) as u32]
        == g.address(40))
}

/// How far a thread has come along K: `done` elements of its part.
pub open spec fn come(g: Gemm, c: Context, th: Thread, done: int) -> bool {
    &&& th.v[c.st.k_off.0] == 2 * g.part() * g.part_len() + 2 * done
    &&& th.s[c.st.k_iter.0] == done
}

/// In front of the loop every thread finds out what it needs, and the sums are zero.
#[verifier::spinoff_prover]
#[verifier::rlimit(60)]
pub proof fn threads_find_their_places(x: Section, s: KernelState, g: Gemm, t: u32)
    requires
        x.from <= s.ops.len(),
        s.args.len() == 0,
        s.kernarg_size == 0,
        s.next_sreg == 0,
        s.next_vreg == 1,
        x.machine == g.machine,
        g.fits(),
        g.even(),
        t < g.cfg.wg_size,
        at(x, s, t).v[0] == t,
        at(x, s, wave_head(t)).v[0] == wave_head(t),
    ensures
        ({
            let (s2, c) = context_part(s, plan_of(g.cfg));
            let b = at(x, s2, t);
            &&& b.events == at(x, s, t).events
            &&& ranked(c, s2.next_vreg)
            &&& set_up(g, c, b, t)
            &&& come(g, c, b, 0)
            &&& forall|r: u32|
                c.acc.0 <= r < c.acc.0 + 8 * (c.p.nrb * c.p.nct) ==> #[trigger] b.v[r] == 0
        }),
{
    reveal(context_part);
    let p = plan_of(g.cfg);
    let h = wave_head(t);
    lemma_plan_ok(g);
    lemma_load_row(g, t);
    let (s1, args) = declare_args_part(s, p);
    lemma_declare_args(x, s, p, t);
    lemma_declare_args(x, s, p, h);
    let b1 = at(x, s1, t);
    let (s2, tile) = tile_ids_part(s1, p, args);
    lemma_tile_ids(x, s1, g, args, t);
    lemma_tile_ids(x, s1, g, args, h);
    let b2 = at(x, s2, t);
    let (s3, thread) = thread_ids_part(s2);
    lemma_thread_ids(x, s2, t);
    let b3 = at(x, s3, t);
    let (s4, acc) = accumulators_part(s3, p);
    lemma_accumulators(x, s3, p, t);
    let b4 = at(x, s4, t);
    let (s5, rows) = row_bases_part(s4, p, tile, thread.wave_id);
    lemma_row_bases(x, s4, g, tile, thread.wave_id, t);
    let b5 = at(x, s5, t);
    let k_vreg = VReg(s5.next_vreg as u32);
    let s6 = s5.with_vregs(1, Alignment::Align1).with_op(
        OpOf::VMovFromSgpr { dst: k_vreg, src: args.k_dim },
    );
    let b6 = at(x, s6, t);
    assert(b6.v[k_vreg.0] == g.k());
    let (s7, xs) = x_source_part(s6, p, args.x_ptr, tile.tile_row, k_vreg);
    lemma_x_source(x, s6, g, args.x_ptr, tile.tile_row, k_vreg, t);
    let b7 = at(x, s7, t);
    let (s8, ws) = wt_source_part(s7, p, args.wt_ptr, rows.base_n, k_vreg);
    lemma_wt_source(x, s7, g, args.wt_ptr, rows.base_n, k_vreg, t);
    let b8 = at(x, s8, t);
    let (s9, reads) = read_addrs_part(s8, p, thread);
    lemma_read_addrs(x, s8, g, thread, t);
    let b9 = at(x, s9, t);
    let (s10, temps) = temps_part(s9, p);
    lemma_temps(s9, p);
    let (s11, x_stride) = pass_stride_part(s10, p, k_vreg);
    lemma_pass_stride(x, s10, g, k_vreg, t);
    let b11 = at(x, s11, t);
    let (s12, wt_stride) = pass_stride_part(s11, p, k_vreg);
    lemma_pass_stride(x, s11, g, k_vreg, t);
    let b12 = at(x, s12, t);
    let (s13, st) = loop_state_part(s12, p, tile.k_start);
    lemma_loop_state(x, s12, p, tile.k_start, t);
    let b13 = at(x, s13, t);
}

/// Bounds on the plan of a multiplication.
#[verifier::spinoff_prover]
#[verifier::rlimit(60)]
proof fn lemma_plan_ok(g: Gemm)
    requires
        g.fits(),
        g.even(),
        1 <= g.cfg.wg_size,
    ensures
        plan_of(g.cfg).ok(),
        0 < plan_of(g.cfg).x_loads,
        0 < plan_of(g.cfg).wt_loads,
        plan_of(g.cfg).x_loads * g.pass_rows() == g.cfg.tile_m,
        plan_of(g.cfg).wt_loads * g.pass_rows() == g.cfg.tile_n,
        2 * g.k() * g.pass_rows() <= u32::MAX,
        plan_of(g.cfg).rows_per_pass == g.pass_rows(),
        plan_of(g.cfg).lds_x == x_shared(g),
{
    let c = g.cfg;
    lemma_plan_bounds(c);
    lemma_load_row(g, 0);
    lemma_row0(g);
    let (tm, tn, tk) = (c.tile_m as int, c.tile_n as int, c.tile_k as int);
    let (wg, rows, pieces) = (c.wg_size as int, g.pass_rows() as int, g.pieces() as int);
    lemma_passes(tm, tk, wg, rows, pieces);
    lemma_passes(tn, tk, wg, rows, pieces);
    assert(2 * g.k() * rows <= 2 * g.k() * (g.row0() + tm)) by (nonlinear_arith)
        requires
            rows <= g.row0() + tm,
            0 <= g.k(),
    ;
    assert(0 <= c.tile_m * c.row_bytes()) by (nonlinear_arith)
        requires
            0 <= c.row_bytes(),
    ;
}

/// Loads per thread are passes over the rows.
proof fn lemma_passes(tm: int, tk: int, wg: int, rows: int, pieces: int)
    requires
        1 <= rows,
        1 <= tm,
        tm % rows == 0,
        rows * pieces == wg,
        tk == 8 * pieces,
        2 <= pieces,
    ensures
        tm * tk * 2 / wg / 16 == tm / rows,
        tm / rows * rows == tm,
        1 <= tm / rows,
{
    let q = tm / rows;
    assert(q * rows == tm && q >= 1) by (nonlinear_arith)
        requires
            tm % rows == 0,
            q == tm / rows,
            1 <= tm,
            1 <= rows,
    ;
    assert(tm * tk * 2 == (16 * q) * wg) by (nonlinear_arith)
        requires
            q * rows == tm,
            tk == 8 * pieces,
            rows * pieces == wg,
    ;
    assert(wg >= 1) by (nonlinear_arith)
        requires
            rows * pieces == wg,
            rows >= 1,
            pieces >= 2,
    ;
    assert((16 * q) * wg / wg == 16 * q) by (nonlinear_arith)
        requires
            wg >= 1,
    ;
}

// ── A turn of the loop ──
/// The loads of several passes.
pub open spec fn pass_loads(from: int, stride: int, regs: VReg, n: nat) -> Seq<Event> {
    Seq::new(
        n,
        |i: int| Event::Load { at: from + i * stride, count: 4, dst: (regs.0 + 4 * i) as u32 },
    )
}

/// Whether a register is outside a group.
pub open spec fn outside(r: int, first: VReg, n: int) -> bool {
    r < first.0 || first.0 + n <= r
}

/// The passes of a load.
#[verifier::spinoff_prover]
#[verifier::rlimit(60)]
proof fn lemma_load_passes(
    x: Section,
    s: KernelState,
    regs: VReg,
    addr: VReg,
    stride: VReg,
    count: u32,
    n: u32,
    t: u32,
)
    requires
        x.from <= s.ops.len(),
        n <= count <= 64,
        regs.0 <= REG_LIMIT,
        addr.0 <= REG_LIMIT,
        outside(addr.0 as int, regs, 4 * count),
        outside(addr.0 + 1, regs, 4 * count),
        outside(stride.0 as int, regs, 4 * count),
        stride.0 != addr.0,
        stride.0 != addr.0 + 1,
        at(x, s, t).pair(addr) + (count - 1) * at(x, s, t).v[stride.0] <= u64::MAX,
    ensures
        ({
            let s2 = load_passes_part(s, regs, addr, stride, count, n);
            let (a, b) = (at(x, s, t), at(x, s2, t));
            let (from, step) = (a.pair(addr), a.v[stride.0] as int);
            &&& s.ops.len() <= s2.ops.len()
            &&& s2.next_vreg == s.next_vreg
            &&& b.s == a.s
            &&& b.events == a.events + pass_loads(from, step, regs, n as nat)
            &&& b.pair(addr) == from + step * if n < count || n == 0 {
                n as int
            } else {
                n - 1
            }
            &&& forall|r: u32|
                outside(r as int, regs, 4 * n) && r != addr.0 && r != addr.0 + 1
                    ==> #[trigger] b.v[r] == a.v[r]
            &&& forall|r: u32|
                regs.0 <= r < regs.0 + 4 * n ==> #[trigger] b.v[r] == (x.machine.words)(
                    from + (r - regs.0) / 4 * step + 4 * ((r - regs.0) % 4),
                )
        }),
    decreases n,
{
    reveal(load_passes_part);
    let a = at(x, s, t);
    let (from, step) = (a.pair(addr), a.v[stride.0] as int);
    if n > 0 {
        let i = (n - 1) as u32;
        lemma_load_passes(x, s, regs, addr, stride, count, i, t);
        let s1 = load_passes_part(s, regs, addr, stride, count, i);
        let b1 = at(x, s1, t);
        let here = from + step * i;
        assert(b1.pair(addr) == here);
        assert(step * i == i * step) by (nonlinear_arith);
        let dst = v_plus(regs, (4 * i) as u32);
        let s2 = s1.with_op(OpOf::GlobalLoad { dst, addr, width: Width::B128, offset: 0 });
        let b2 = at(x, s2, t);
        let word = |j: int| (x.machine.words)(here + 4 * j);
        lemma_with_vs(b1, dst, 4, word);
        assert(b2 == b1.with_vs(dst, 4, word).with_event(
            Event::Load { at: here, count: 4, dst: dst.0 },
        )) by {
            let m = x.machine.words;
            let place = b1.pair(addr) + 0;
            assert((|j: int| m(place + 4 * j)) =~= word);
        }
        assert(b2.events =~= a.events + pass_loads(from, step, regs, n as nat));
        assert(b2.pair(addr) == here);
        let s3 = load_passes_part(s, regs, addr, stride, count, n);
        let b3 = at(x, s3, t);
        if i + 1 < count {
            assert(here + step <= from + (count - 1) * step) by (nonlinear_arith)
                requires
                    here == from + step * i,
                    i + 1 <= count - 1,
                    0 <= step,
            ;
            lemma_pair_sum(x.machine, b2, addr, stride);
            assert(b3.pair(addr) == here + step);
            assert(here + step == from + step * n) by (nonlinear_arith)
                requires
                    here == from + step * i,
                    n == i + 1,
            ;
        } else {
            assert(b3 == b2);
        }
        assert forall|r: u32| regs.0 <= r < regs.0 + 4 * n implies #[trigger] b3.v[r] == (
        x.machine.words)(from + (r - regs.0) / 4 * step + 4 * ((r - regs.0) % 4)) by {
            assert(b3.v[r] == b2.v[r]);
            if r < regs.0 + 4 * i {
                assert(b2.v[r] == b1.v[r]);
            } else {
                assert((r - regs.0) / 4 == i);
            }
        }
    } else {
        assert(step * 0 == 0);
        assert(at(x, load_passes_part(s, regs, addr, stride, count, 0), t).events =~= a.events
            + pass_loads(from, step, regs, 0));
    }
}

/// The loads of one input at an offset along K.
#[verifier::spinoff_prover]
#[verifier::rlimit(60)]
proof fn lemma_load_side(
    x: Section,
    s: KernelState,
    regs: VReg,
    addr: VReg,
    gmem: VReg,
    stride: VReg,
    k_off: VReg,
    count: u32,
    t: u32,
)
    requires
        x.from <= s.ops.len(),
        1 <= count <= 64,
        regs.0 <= REG_LIMIT,
        addr.0 <= REG_LIMIT,
        gmem.0 <= REG_LIMIT,
        outside(addr.0 as int, regs, 4 * count),
        outside(addr.0 + 1, regs, 4 * count),
        outside(stride.0 as int, regs, 4 * count),
        outside(stride.0 as int, addr, 2),
        outside(k_off.0 as int, addr, 2),
        outside(gmem.0 as int, addr, 2),
        outside(gmem.0 + 1, addr, 2),
        at(x, s, t).pair(gmem) + at(x, s, t).v[k_off.0] + (count - 1) * at(x, s, t).v[stride.0]
            <= u64::MAX,
    ensures
        ({
            let s2 = load_side_part(s, regs, addr, gmem, stride, k_off, count);
            let (a, b) = (at(x, s, t), at(x, s2, t));
            let (from, step) = (a.pair(gmem) + a.v[k_off.0], a.v[stride.0] as int);
            &&& s.ops.len() <= s2.ops.len()
            &&& s2.next_vreg == s.next_vreg
            &&& b.s == a.s
            &&& b.events == a.events + pass_loads(from, step, regs, count as nat)
            &&& forall|r: u32|
                outside(r as int, regs, 4 * count) && outside(r as int, addr, 2)
                    ==> #[trigger] b.v[r] == a.v[r]
            &&& forall|r: u32|
                regs.0 <= r < regs.0 + 4 * count ==> #[trigger] b.v[r] == (x.machine.words)(
                    from + (r - regs.0) / 4 * step + 4 * ((r - regs.0) % 4),
                )
        }),
{
    reveal(load_side_part);
    let a = at(x, s, t);
    let s1 = s.with_op(OpOf::VMov { dst: addr, src: Operand::VReg(gmem) }).with_op(
        OpOf::VMov { dst: v_plus(addr, 1), src: Operand::VReg(v_plus(gmem, 1)) },
    );
    let b1 = at(x, s1, t);
    assert(b1.pair(addr) == a.pair(gmem));
    let s2 = s1.with_op(OpOf::VAddCo { dst: addr, src0: addr, src1: k_off }).with_op(
        OpOf::VAddCoCi { dst: v_plus(addr, 1), src: v_plus(addr, 1) },
    );
    let b2 = at(x, s2, t);
    assert(0 <= (count - 1) * a.v[stride.0]) by (nonlinear_arith)
        requires
            1 <= count,
    ;
    lemma_pair_sum(x.machine, b1, addr, k_off);
    assert(b2.pair(addr) == a.pair(gmem) + a.v[k_off.0]);
    lemma_load_passes(x, s2, regs, addr, stride, count, count, t);
}

/// The stores of several passes in the local data share.
pub open spec fn pass_stores(
    from: int,
    step: int,
    words: spec_fn(int) -> Seq<u32>,
    n: nat,
) -> Seq<Event> {
    Seq::new(n, |i: int| Event::SharedStore { at: from + i * step, words: words(i) })
}

/// The words of each pass, four registers from `regs` on.
pub open spec fn held(th: Thread, regs: VReg) -> spec_fn(int) -> Seq<u32> {
    |i: int| th.four(VReg((regs.0 + 4 * i) as u32))
}

/// The passes of a store in the local data share.
#[verifier::spinoff_prover]
#[verifier::rlimit(60)]
proof fn lemma_store_passes(
    x: Section,
    s: KernelState,
    regs: VReg,
    addr: VReg,
    step: i32,
    count: u32,
    n: u32,
    t: u32,
)
    requires
        x.from <= s.ops.len(),
        n <= count <= 64,
        regs.0 <= REG_LIMIT,
        outside(addr.0 as int, regs, 4 * count),
        0 <= step <= 0x10_0000,
        at(x, s, t).v[addr.0] <= 0x1000_0000,
    ensures
        ({
            let s2 = store_passes_part(s, regs, addr, step, count, n);
            let (a, b) = (at(x, s, t), at(x, s2, t));
            &&& s.ops.len() <= s2.ops.len()
            &&& s2.next_vreg == s.next_vreg
            &&& b.s == a.s
            &&& b.events == a.events + pass_stores(
                a.v[addr.0] as int,
                step as int,
                held(a, regs),
                n as nat,
            )
            &&& b.v[addr.0] == a.v[addr.0] + step * if n < count || n == 0 {
                n as int
            } else {
                n - 1
            }
            &&& forall|r: u32| r != addr.0 ==> #[trigger] b.v[r] == a.v[r]
        }),
    decreases n,
{
    reveal(store_passes_part);
    let a = at(x, s, t);
    let from = a.v[addr.0] as int;
    if n > 0 {
        let i = (n - 1) as u32;
        lemma_store_passes(x, s, regs, addr, step, count, i, t);
        let s1 = store_passes_part(s, regs, addr, step, count, i);
        let b1 = at(x, s1, t);
        assert(step * i == i * step) by (nonlinear_arith);
        lemma_small_product(step as int, i as int, 0x10_0000, 64);
        assert(step * n == step * i + step) by (nonlinear_arith)
            requires
                n == i + 1,
        ;
        let src = v_plus(regs, (4 * i) as u32);
        let s2 = s1.with_op(OpOf::DsStoreB128 { vaddr: addr, src, offset: 0 });
        let b2 = at(x, s2, t);
        assert(b1.four(src) =~= a.four(src)) by {
            assert forall|j: int| 0 <= j < 4 implies b1.four(src)[j] == a.four(src)[j] by {
                let r = (src.0 + j) as u32;
                assert(b1.v[r] == a.v[r]);
            }
        }
        assert(b2.events =~= a.events + pass_stores(
            from,
            step as int,
            held(a, regs),
            n as nat,
        ));
    } else {
        assert(step * 0 == 0);
        assert(at(x, store_passes_part(s, regs, addr, step, count, 0), t).events =~= a.events
            + pass_stores(from, step as int, held(a, regs), 0));
    }
}

/// The passes of both inputs.
#[verifier::spinoff_prover]
#[verifier::rlimit(60)]
proof fn lemma_gmem_load(x: Section, s: KernelState, g: Gemm, c: Context, t: u32, done: int)
    requires
        x.from <= s.ops.len(),
        g.fits(),
        g.even(),
        t < g.cfg.wg_size,
        ranked(c, s.next_vreg),
        set_up(g, c, at(x, s, t), t),
        come(g, c, at(x, s, t), done),
        0 <= done,
        done + g.cfg.tile_k <= g.part_len(),
    ensures
        ({
            let s2 = gmem_load_part(s, c);
            let (a, b) = (at(x, s, t), at(x, s2, t));
            let off = 2 * (g.part() * g.part_len() + done);
            let stride = 2 * g.k() * g.pass_rows();
            &&& s.ops.len() <= s2.ops.len()
            &&& s2.next_vreg == s.next_vreg
            &&& b.s == a.s
            &&& b.events == a.events + pass_loads(
                x_from(g, t) + off,
                stride,
                c.temps.gmem_x,
                c.p.x_loads as nat,
            ) + pass_loads(
                wt_from(g, t) + off,
                stride,
                c.temps.gmem_wt,
                c.p.wt_loads as nat,
            )
            &&& forall|r: u32|
                outside(r as int, c.temps.gmem_x, c.temps.x_frags.0 - c.temps.gmem_x.0) && outside(
                    r as int,
                    c.temps.xa,
                    4,
                ) ==> #[trigger] b.v[r] == a.v[r]
            &&& forall|r: u32|
                c.temps.gmem_x.0 <= r < c.temps.gmem_wt.0 ==> #[trigger] b.v[r] == (
                x.machine.words)(
                    x_from(g, t) + off + (r - c.temps.gmem_x.0) / 4 * stride + 4 * ((r
                        - c.temps.gmem_x.0) % 4),
                )
            &&& forall|r: u32|
                c.temps.gmem_wt.0 <= r < c.temps.x_frags.0 ==> #[trigger] b.v[r] == (
                x.machine.words)(
                    wt_from(g, t) + off + (r - c.temps.gmem_wt.0) / 4 * stride + 4 * ((r
                        - c.temps.gmem_wt.0) % 4),
                )
        }),
{
    reveal(gmem_load_part);
    lemma_plan_ok(g);
    lemma_load_row(g, t);
    lemma_loads_fit(g, t, done);
    let r = c.temps;
    let a = at(x, s, t);
    let s1 = load_side_part(s, r.gmem_x, r.xa, c.x.gmem, c.x_stride, c.st.k_off, c.p.x_loads);
    lemma_load_side(x, s, r.gmem_x, r.xa, c.x.gmem, c.x_stride, c.st.k_off, c.p.x_loads, t);
    let b1 = at(x, s1, t);
    assert(b1.pair(c.wt.gmem) == a.pair(c.wt.gmem));
    assert(b1.v[c.wt_stride.0] == a.v[c.wt_stride.0]);
    assert(b1.v[c.st.k_off.0] == a.v[c.st.k_off.0]);
    lemma_load_side(x, s1, r.gmem_wt, r.wa, c.wt.gmem, c.wt_stride, c.st.k_off, c.p.wt_loads, t);
}

/// What a thread loads lies below the end of its input.
proof fn lemma_loads_fit(g: Gemm, t: u32, done: int)
    requires
        g.fits(),
        g.even(),
        t < g.cfg.wg_size,
        0 <= done,
        done + g.cfg.tile_k <= g.part_len(),
    ensures
        ({
            let off = 2 * (g.part() * g.part_len() + done);
            let stride = 2 * g.k() * g.pass_rows();
            &&& 0 <= off
            &&& off + 2 * g.cfg.tile_k <= 2 * g.k()
            &&& 0 <= stride
            &&& x_from(g, t) + off + (plan_of(g.cfg).x_loads - 1) * stride <= u64::MAX
            &&& wt_from(g, t) + off + (plan_of(g.cfg).wt_loads - 1) * stride <= u64::MAX
            &&& off == 2 * g.part() * g.part_len() + 2 * done
        }),
{
    lemma_plan_ok(g);
    lemma_load_row(g, t);
    lemma_row0(g);
    let (part, len, sk, k) = (g.part(), g.part_len(), g.cfg.splits() as int, g.k());
    assert(0 <= part * len && part * len + len <= k) by (nonlinear_arith)
        requires
            0 <= part < sk,
            len == k / sk,
            0 <= k,
    ;
    let off = 2 * (part * len + done);
    assert(2 * part * len == 2 * (part * len)) by (nonlinear_arith);
    lemma_last_pass(
        k,
        g.row0(),
        g.load_row(t),
        g.pass_rows() as int,
        plan_of(g.cfg).x_loads as int,
        g.cfg.tile_m as int,
    );
    lemma_last_pass(
        k,
        g.col0(),
        g.load_row(t),
        g.pass_rows() as int,
        plan_of(g.cfg).wt_loads as int,
        g.cfg.tile_n as int,
    );
}

/// The rows of the last pass are the last of the tile.
proof fn lemma_last_pass(k: int, first: int, r: int, rows: int, loads: int, tile: int)
    requires
        0 <= k,
        0 <= r < rows,
        loads * rows == tile,
    ensures
        2 * k * (first + r) + (loads - 1) * (2 * k * rows) + 2 * k <= 2 * k * (first + tile),
        0 <= 2 * k * rows,
{
    assert((loads - 1) * (2 * k * rows) == 2 * k * (tile - rows)) by (nonlinear_arith)
        requires
            loads * rows == tile,
    ;
    assert(2 * k * (first + r) + 2 * k * (tile - rows) + 2 * k <= 2 * k * (first + tile))
        by (nonlinear_arith)
        requires
            r + 1 <= rows,
            0 <= k,
    ;
    assert(0 <= 2 * k * rows) by (nonlinear_arith)
        requires
            0 <= k,
            0 <= rows,
    ;
}

/// Putting both inputs in a buffer.
#[verifier::spinoff_prover]
#[verifier::rlimit(60)]
proof fn lemma_lds_store(x: Section, s: KernelState, g: Gemm, c: Context, buf: VReg, t: u32)
    requires
        x.from <= s.ops.len(),
        g.fits(),
        g.even(),
        t < g.cfg.wg_size,
        ranked(c, s.next_vreg),
        set_up(g, c, at(x, s, t), t),
        buf == c.st.buf0 || buf == c.st.buf1,
    ensures
        ({
            let s2 = lds_store_part(s, c, buf);
            let (a, b) = (at(x, s, t), at(x, s2, t));
            let from = a.v[buf.0] + shared_place(g.cfg, g.load_row(t), g.piece(t));
            let step = g.pass_rows() * g.cfg.row_bytes();
            &&& s.ops.len() <= s2.ops.len()
            &&& s2.next_vreg == s.next_vreg
            &&& b.s == a.s
            &&& b.events == a.events + pass_stores(
                from,
                step as int,
                held(a, c.temps.gmem_x),
                c.p.x_loads as nat,
            ) + pass_stores(
                x_shared(g) + from,
                step as int,
                held(a, c.temps.gmem_wt),
                c.p.wt_loads as nat,
            )
            &&& forall|r: u32|
                r != c.temps.lds_x.0 && r != c.temps.lds_w.0 ==> #[trigger] b.v[r] == a.v[r]
        }),
{
    reveal(lds_store_part);
    lemma_plan_ok(g);
    lemma_load_row(g, t);
    lemma_row_bytes(g.cfg);
    let r = c.temps;
    let a = at(x, s, t);
    let step = (c.p.rows_per_pass * c.p.row_stride) as i32;
    lemma_small_product(c.p.rows_per_pass as int, c.p.row_stride as int, 200, 4096);
    assert(step == g.pass_rows() * g.cfg.row_bytes());
    assert(a.v[buf.0] <= 65536);
    let s1 = s.with_op(
        OpOf::VAddU32 { dst: r.lds_x, src0: Operand::VReg(c.x.lds), src1: Operand::VReg(buf) },
    );
    let b1 = at(x, s1, t);
    assert(b1.v[r.lds_x.0] == a.v[buf.0] + shared_place(g.cfg, g.load_row(t), g.piece(t)));
    lemma_store_passes(x, s1, r.gmem_x, r.lds_x, step, c.p.x_loads, c.p.x_loads, t);
    let s2 = store_passes_part(s1, r.gmem_x, r.lds_x, step, c.p.x_loads, c.p.x_loads);
    let b2 = at(x, s2, t);
    assert(b2.v[c.wt.lds.0] == a.v[c.wt.lds.0] && b2.v[buf.0] == a.v[buf.0]);
    let s3 = s2.with_op(
        OpOf::VAddU32 { dst: r.lds_w, src0: Operand::VReg(c.wt.lds), src1: Operand::VReg(buf) },
    );
    let b3 = at(x, s3, t);
    assert(b3.v[r.lds_w.0] == x_shared(g) + a.v[buf.0] + shared_place(
        g.cfg,
        g.load_row(t),
        g.piece(t),
    ));
    lemma_store_passes(x, s3, r.gmem_wt, r.lds_w, step, c.p.wt_loads, c.p.wt_loads, t);
    lemma_held(b1, a, r.gmem_x, c.p.x_loads);
    lemma_held(b3, a, r.gmem_wt, c.p.wt_loads);
    let (wide, n) = (step as int, c.p.x_loads as nat);
    let from = a.v[buf.0] + shared_place(g.cfg, g.load_row(t), g.piece(t));
    assert(pass_stores(from, wide, held(b1, r.gmem_x), n) =~= pass_stores(
        from,
        wide,
        held(a, r.gmem_x),
        n,
    ));
    let m = c.p.wt_loads as nat;
    assert(pass_stores(x_shared(g) + from, wide, held(b3, r.gmem_wt), m) =~= pass_stores(
        x_shared(g) + from,
        wide,
        held(a, r.gmem_wt),
        m,
    ));
}

/// Registers that stay hold the same words.
proof fn lemma_held(b: Thread, a: Thread, regs: VReg, n: u32)
    requires
        n <= 64,
        regs.0 <= REG_LIMIT,
        forall|r: u32| regs.0 <= r < regs.0 + 4 * n ==> #[trigger] b.v[r] == a.v[r],
    ensures
        forall|i: int| 0 <= i < n ==> #[trigger] held(b, regs)(i) == held(a, regs)(i),
{
    assert forall|i: int| 0 <= i < n implies #[trigger] held(b, regs)(i) == held(a, regs)(i) by {
        let src = VReg((regs.0 + 4 * i) as u32);
        assert forall|j: int| 0 <= j < 4 implies b.four(src)[j] == a.four(src)[j] by {
            let r = (src.0 + j) as u32;
            assert(b.v[r] == a.v[r]);
        }
        assert(b.four(src) =~= a.four(src));
    }
}

/// The set-up stays while its registers stay.
proof fn lemma_set_up_stays(g: Gemm, c: Context, a: Thread, b: Thread, t: u32, next_vreg: nat)
    requires
        ranked(c, next_vreg),
        set_up(g, c, a, t),
        forall|r: u32|
            r < next_vreg && outside(
                r as int,
                c.temps.gmem_x,
                c.x_stride.0 - c.temps.gmem_x.0,
            ) && outside(r as int, c.acc, 8 * (c.p.nrb * c.p.nct)) && r != c.st.k_off.0
                ==> #[trigger] b.v[r] == a.v[r],
        forall|r: u32| r < c.st.k_iter.0 ==> #[trigger] b.s[r] == a.s[r],
    ensures
        set_up(g, c, b, t),
{
    assert forall|i: u32| i < c.p.nrb implies b.v[#[trigger] v_plus(c.reads.x, i).0]
        == shared_place(g.cfg, read_row(g.cfg, t, i as int), 0) by {
        assert(b.v[v_plus(c.reads.x, i).0] == a.v[v_plus(c.reads.x, i).0]);
    }
    assert forall|i: u32| i < c.p.nrb implies b.s[(#[trigger] row_base_of(c.rows, i)).0] == g.row0()
        + (t / 32) * g.cfg.wave_rows() + 16 * i by {
        assert(b.s[row_base_of(c.rows, i).0] == a.s[row_base_of(c.rows, i).0]);
    }
    assert(b.pair(c.x.gmem) == a.pair(c.x.gmem));
    assert(b.pair(c.wt.gmem) == a.pair(c.wt.gmem));
}

/// Moving on along K.
spec fn moved_on(s: KernelState, c: Context) -> KernelState {
    s.with_op(
        OpOf::VAddU32 {
            dst: c.st.k_off,
            src0: Operand::VReg(c.st.k_off),
            src1: Operand::InlineInt((c.p.tile_k * 2) as i32),
        },
    ).with_op(
        OpOf::SAddU32 {
            dst: c.st.k_iter,
            src0: c.st.k_iter,
            src1: SOperand::InlineInt(c.p.tile_k as i32),
        },
    )
}

/// Moving on along K.
#[verifier::spinoff_prover]
#[verifier::rlimit(60)]
proof fn lemma_move_on(x: Section, s: KernelState, c: Context, t: u32)
    requires
        x.from <= s.ops.len(),
        c.p.tile_k <= 64,
        at(x, s, t).v[c.st.k_off.0] + 2 * c.p.tile_k <= u32::MAX,
        at(x, s, t).s[c.st.k_iter.0] + c.p.tile_k <= u32::MAX,
    ensures
        ({
            let s2 = moved_on(s, c);
            let (a, b) = (at(x, s, t), at(x, s2, t));
            &&& s.ops.len() <= s2.ops.len()
            &&& s2.next_vreg == s.next_vreg
            &&& b.events == a.events
            &&& b.v[c.st.k_off.0] == a.v[c.st.k_off.0] + 2 * c.p.tile_k
            &&& b.s[c.st.k_iter.0] == a.s[c.st.k_iter.0] + c.p.tile_k
            &&& forall|r: u32| r != c.st.k_off.0 ==> #[trigger] b.v[r] == a.v[r]
            &&& forall|r: u32| r != c.st.k_iter.0 ==> #[trigger] b.s[r] == a.s[r]
        }),
{
}

/// The end of a turn: what was loaded goes to a buffer, and the thread moves on along K.
#[verifier::spinoff_prover]
#[verifier::rlimit(80)]
proof fn lemma_fill(
    x: Section,
    s: KernelState,
    g: Gemm,
    c: Context,
    buf: VReg,
    t: u32,
    done: int,
)
    requires
        x.from <= s.ops.len(),
        g.fits(),
        g.even(),
        t < g.cfg.wg_size,
        ranked(c, s.next_vreg),
        set_up(g, c, at(x, s, t), t),
        come(g, c, at(x, s, t), done),
        0 <= done,
        done + g.cfg.tile_k <= g.part_len(),
        buf == c.st.buf0 || buf == c.st.buf1,
    ensures
        ({
            let s2 = fill_part(s, c, buf);
            let (a, b) = (at(x, s, t), at(x, s2, t));
            let from = a.v[buf.0] + shared_place(g.cfg, g.load_row(t), g.piece(t));
            let step = g.pass_rows() * g.cfg.row_bytes();
            &&& s.ops.len() <= s2.ops.len()
            &&& s2.next_vreg == s.next_vreg
            &&& set_up(g, c, b, t)
            &&& come(g, c, b, done + g.cfg.tile_k)
            &&& b.events == a.events + pass_stores(
                from,
                step as int,
                held(a, c.temps.gmem_x),
                c.p.x_loads as nat,
            ) + pass_stores(
                x_shared(g) + from,
                step as int,
                held(a, c.temps.gmem_wt),
                c.p.wt_loads as nat,
            )
            &&& forall|r: u32|
                r != c.temps.lds_x.0 && r != c.temps.lds_w.0 && r != c.st.k_off.0
                    ==> #[trigger] b.v[r] == a.v[r]
        }),
{
    reveal(fill_part);
    lemma_plan_ok(g);
    lemma_loads_fit(g, t, done);
    let a = at(x, s, t);
    let s1 = s.with_op(OpOf::WaitVmcnt(0));
    assert(at(x, s1, t) == a);
    lemma_lds_store(x, s1, g, c, buf, t);
    let s2 = lds_store_part(s1, c, buf);
    let b2 = at(x, s2, t);
    let s3 = s2.with_op(OpOf::WaitLgkmcnt(0)).with_op(OpOf::SBarrier);
    assert(at(x, s3, t) == b2);
    assert(b2.v[c.st.k_off.0] == a.v[c.st.k_off.0]);
    assert(2 * g.k() <= u32::MAX) by {
        lemma_row0(g);
        lemma_next_row(g.k(), 0, 0, g.row0() + g.cfg.tile_m);
    }
    lemma_move_on(x, s3, c, t);
    assert(moved_on(s3, c) == fill_part(s, c, buf));
    let b = at(x, fill_part(s, c, buf), t);
    lemma_set_up_stays(g, c, a, b, t, s.next_vreg);
}

/// Reading one fragment.
#[verifier::spinoff_prover]
#[verifier::rlimit(60)]
proof fn lemma_read_frag(
    x: Section,
    s: KernelState,
    dst: VReg,
    tmp: VReg,
    base: VReg,
    buf: VReg,
    offset: u16,
    t: u32,
)
    requires
        x.from <= s.ops.len(),
        dst.0 <= REG_LIMIT,
        outside(tmp.0 as int, dst, 8),
        offset + 16 <= u16::MAX,
        at(x, s, t).v[base.0] + at(x, s, t).v[buf.0] <= u32::MAX,
    ensures
        ({
            let s2 = read_frag_part(s, dst, tmp, base, buf, offset);
            let (a, b) = (at(x, s, t), at(x, s2, t));
            let from = a.v[base.0] + a.v[buf.0] + offset;
            &&& s.ops.len() <= s2.ops.len()
            &&& s2.next_vreg == s.next_vreg
            &&& b.s == a.s
            &&& b.events == a.events.push(Event::SharedLoad { at: from, dst: dst.0 }).push(
                Event::SharedLoad { at: from + 16, dst: (dst.0 + 4) as u32 },
            )
            &&& forall|r: u32|
                outside(r as int, dst, 8) && r != tmp.0 ==> #[trigger] b.v[r] == a.v[r]
        }),
{
    reveal(read_frag_part);
    let a = at(x, s, t);
    let m = x.machine.shared;
    let s1 = s.with_op(
        OpOf::VAddU32 { dst: tmp, src0: Operand::VReg(base), src1: Operand::VReg(buf) },
    );
    let b1 = at(x, s1, t);
    assert(b1.v[tmp.0] == a.v[base.0] + a.v[buf.0]);
    let s2 = s1.with_op(OpOf::DsLoadB128 { dst, vaddr: tmp, offset });
    let n1 = b1.events.len();
    lemma_with_vs(b1, dst, 4, |i: int| m(n1, (dst.0 + i) as u32));
    let b2 = at(x, s2, t);
    let high = v_plus(dst, 4);
    let n2 = b2.events.len();
    lemma_with_vs(b2, high, 4, |i: int| m(n2, (high.0 + i) as u32));
}

/// Whether only fragments and sums changed.
pub open spec fn multiplied(c: Context, a: Thread, b: Thread) -> bool {
    &&& b.s == a.s
    &&& forall|r: u32|
        outside(r as int, c.temps.x_frags, c.temps.xa.0 - c.temps.x_frags.0) && outside(
            r as int,
            c.acc,
            8 * (c.p.nrb * c.p.nct),
        ) && r != c.temps.frag.0 ==> #[trigger] b.v[r] == a.v[r]
}

/// The reads of one block of the left input: sixteen rows, and sixteen elements along K in two
/// pieces.
pub open spec fn x_reads(
    g: Gemm,
    c: Context,
    place: int,
    t: u32,
    block: int,
    step: int,
) -> Seq<Event> {
    let row = read_row(g.cfg, t, block);
    let dst = (c.temps.x_frags.0 + 8 * block) as u32;
    seq![
        Event::SharedLoad { at: place + shared_place(g.cfg, row, 2 * step), dst },
        Event::SharedLoad {
            at: place + shared_place(g.cfg, row, 2 * step + 1),
            dst: (dst + 4) as u32,
        },
    ]
}

/// The reads of `n` blocks of the right input.
pub open spec fn wt_reads(
    g: Gemm,
    c: Context,
    place: int,
    t: u32,
    step: int,
    n: nat,
) -> Seq<Event> {
    Seq::new(
        2 * n,
        |e: int|
            Event::SharedLoad {
                at: place + x_shared(g) + shared_place(
                    g.cfg,
                    16 * (e / 2) + t as int % 16,
                    2 * step + e % 2,
                ),
                dst: (c.temps.wt_frags.0 + 4 * e) as u32,
            },
    )
}

/// The register where the sums of a block of rows and one of columns begin.
pub open spec fn sum_reg(c: Context, block: int, col: int) -> int {
    c.acc.0 + 8 * (block * c.p.nct + col)
}

/// One block of rows times `n` blocks of columns.
pub open spec fn block_products(c: Context, block: int, n: nat) -> Seq<Event> {
    Seq::new(
        n,
        |j: int|
            Event::Product {
                a: (c.temps.x_frags.0 + 8 * block) as u32,
                b: (c.temps.wt_frags.0 + 8 * j) as u32,
                c: sum_reg(c, block, j) as u32,
                dst: sum_reg(c, block, j) as u32,
            },
    )
}

/// The blocks of rows behind the first, each read and multiplied.
pub open spec fn later_blocks(
    g: Gemm,
    c: Context,
    place: int,
    t: u32,
    step: int,
    n: nat,
) -> Seq<Event>
    decreases n,
{
    if n == 0 {
        Seq::empty()
    } else {
        later_blocks(g, c, place, t, step, (n - 1) as nat) + x_reads(
            g,
            c,
            place,
            t,
            n as int,
            step,
        ) + block_products(c, n as int, c.p.nct as nat)
    }
}

/// One step of sixteen elements along K: every block of rows times every block of columns.
pub open spec fn step_events(g: Gemm, c: Context, place: int, t: u32, step: int) -> Seq<Event> {
    x_reads(g, c, place, t, 0, step) + wt_reads(g, c, place, t, step, c.p.nct as nat)
        + block_products(c, 0, c.p.nct as nat) + later_blocks(
        g,
        c,
        place,
        t,
        step,
        (c.p.nrb - 1) as nat,
    )
}

/// The first `n` steps along K of a buffer.
pub open spec fn buffer_events(g: Gemm, c: Context, place: int, t: u32, n: nat) -> Seq<Event>
    decreases n,
{
    if n == 0 {
        Seq::empty()
    } else {
        buffer_events(g, c, place, t, (n - 1) as nat) + step_events(g, c, place, t, n - 1)
    }
}

/// What the reads of a buffer need.
spec fn readable(g: Gemm, c: Context, buf: VReg, a: Thread, t: u32, next_vreg: nat) -> bool {
    &&& ranked(c, next_vreg)
    &&& c.p.ok()
    &&& set_up(g, c, a, t)
    &&& buf == c.st.buf0 || buf == c.st.buf1
    &&& t / 32 < g.cfg.waves()
    &&& generable(g.cfg)
}

/// Places in a buffer are small.
proof fn lemma_read_places(g: Gemm, c: Context, a: Thread, buf: VReg, t: u32, next_vreg: nat)
    requires
        readable(g, c, buf, a, t, next_vreg),
    ensures
        a.v[buf.0] <= 65536,
        forall|i: u32| i < c.p.nrb ==> a.v[#[trigger] v_plus(c.reads.x, i).0] <= 0x1000_0000,
        a.v[c.reads.wt.0] <= 65536,
{
    let cfg = g.cfg;
    lemma_shifts(cfg);
    lemma_row_bytes(cfg);
    let (w, wr, rb) = (t as int / 32, cfg.wave_rows() as int, cfg.row_bytes() as int);
    lemma_small_product(t as int % 16, rb, 15, 4096);
    lemma_wave_rows(cfg, w);
    assert forall|i: u32| i < c.p.nrb implies a.v[#[trigger] v_plus(c.reads.x, i).0] <= 0x1000_0000
        by {
        let row = read_row(cfg, t, i as int);
        assert(0 <= row <= 1000);
        lemma_small_product(row, rb, 1000, 4096);
    }
}

/// The rows of a wave lie within the tile.
proof fn lemma_wave_rows(c: GemmConfig, w: int)
    requires
        generable(c),
        0 <= w < c.waves(),
    ensures
        0 <= w * c.wave_rows(),
        w * c.wave_rows() + c.wave_rows() <= c.tile_m,
{
    let wr = c.wave_rows() as int;
    assert(0 <= w * wr && w * wr + wr <= c.tile_m) by (nonlinear_arith)
        requires
            0 <= w < c.waves(),
            wr == c.tile_m as int / c.waves() as int,
    ;
}

/// Reading the fragments of the right input.
#[verifier::spinoff_prover]
#[verifier::rlimit(60)]
proof fn lemma_read_wts(
    x: Section,
    s: KernelState,
    g: Gemm,
    c: Context,
    buf: VReg,
    step: u32,
    n: u32,
    t: u32,
)
    requires
        x.from <= s.ops.len(),
        readable(g, c, buf, at(x, s, t), t, s.next_vreg),
        step < c.p.sub_steps,
        n <= c.p.nct,
    ensures
        ({
            let s2 = read_wts_part(s, c, buf, step, n);
            let (a, b) = (at(x, s, t), at(x, s2, t));
            &&& s.ops.len() <= s2.ops.len()
            &&& s2.next_vreg == s.next_vreg
            &&& multiplied(c, a, b)
            &&& b.events == a.events + wt_reads(
                g,
                c,
                a.v[buf.0] as int,
                t,
                step as int,
                n as nat,
            )
        }),
    decreases n,
{
    reveal(read_wts_part);
    let a = at(x, s, t);
    let place = a.v[buf.0] as int;
    if n > 0 {
        let i = (n - 1) as u32;
        lemma_read_wts(x, s, g, c, buf, step, i, t);
        lemma_read_places(g, c, a, buf, t, s.next_vreg);
        lemma_wt_offset(c.p, i, step);
        let s1 = read_wts_part(s, c, buf, step, i);
        let b1 = at(x, s1, t);
        let offset = (c.p.lds_x + i * 16 * c.p.row_stride + step * 32) as u16;
        let dst = v_plus(c.temps.wt_frags, (8 * i) as u32);
        assert(b1.v[c.reads.wt.0] == a.v[c.reads.wt.0] && b1.v[buf.0] == a.v[buf.0]);
        lemma_read_frag(x, s1, dst, c.temps.frag, c.reads.wt, buf, offset, t);
        let rb = g.cfg.row_bytes() as int;
        lemma_shifts(g.cfg);
        lemma_lds_x(g);
        assert((16 * i + t as int % 16) * rb == i * 16 * rb + (t as int % 16) * rb)
            by (nonlinear_arith);
        let b = at(x, read_wts_part(s, c, buf, step, n), t);
        let want = wt_reads(g, c, place, t, step as int, n as nat);
        assert(b.events =~= a.events + want) by {
            assert((2 * i) as int / 2 == i && (2 * i + 1) as int / 2 == i);
        }
    } else {
        assert(at(x, read_wts_part(s, c, buf, step, 0), t).events =~= a.events + wt_reads(
            g,
            c,
            place,
            t,
            step as int,
            0,
        ));
    }
}

/// Where the right input begins in a buffer.
proof fn lemma_lds_x(g: Gemm)
    requires
        generable(g.cfg),
    ensures
        plan_of(g.cfg).lds_x == x_shared(g),
        0 <= x_shared(g) <= 65536,
{
    let c = g.cfg;
    lemma_row_bytes(c);
    assert(0 <= c.tile_m * c.row_bytes() && 0 <= c.tile_n * c.row_bytes()) by (nonlinear_arith)
        requires
            0 <= c.row_bytes(),
    ;
}

/// Sums of a block lie among all sums.
proof fn lemma_sum_reg(c: Context, block: int, col: int)
    requires
        c.p.ok(),
        0 <= block < c.p.nrb,
        0 <= col < c.p.nct,
    ensures
        c.acc.0 <= sum_reg(c, block, col),
        sum_reg(c, block, col) + 8 <= c.acc.0 + 8 * (c.p.nrb * c.p.nct),
        c.p.nrb * c.p.nct <= 32,
        0 <= block * c.p.nct,
{
    assert(0 <= block * c.p.nct && block * c.p.nct + c.p.nct <= c.p.nrb * c.p.nct)
        by (nonlinear_arith)
        requires
            0 <= block,
            block + 1 <= c.p.nrb,
    ;
    lemma_small_product(c.p.nrb as int, c.p.nct as int, 4, 8);
}

/// One matrix instruction.
#[verifier::spinoff_prover]
#[verifier::rlimit(60)]
proof fn lemma_product_step(
    x: Section,
    s: KernelState,
    c: Context,
    dst: VReg,
    a: VReg,
    b: VReg,
    t: u32,
)
    requires
        x.from <= s.ops.len(),
        c.acc.0 <= REG_LIMIT,
        c.acc.0 <= dst.0,
        dst.0 + 8 <= c.acc.0 + 8 * (c.p.nrb * c.p.nct),
        c.p.nrb * c.p.nct <= 32,
    ensures
        ({
            let s2 = s.with_op(OpOf::Wmma { dst, a, b, c: dst, format: WmmaFormat::BF16_F32 });
            let (th, th2) = (at(x, s, t), at(x, s2, t));
            &&& multiplied(c, th, th2)
            &&& th2.events == th.events.push(
                Event::Product { a: a.0, b: b.0, c: dst.0, dst: dst.0 },
            )
        }),
{
    let th = at(x, s, t);
    let m = x.machine.sums;
    let n = th.events.len();
    lemma_with_vs(th, dst, 8, |i: int| m(n, (dst.0 + i) as u32));
}

/// The first block of rows times the blocks of columns.
#[verifier::spinoff_prover]
#[verifier::rlimit(60)]
proof fn lemma_first_products(x: Section, s: KernelState, c: Context, n: u32, t: u32)
    requires
        x.from <= s.ops.len(),
        c.p.ok(),
        ranked(c, s.next_vreg),
        n <= c.p.nct,
    ensures
        ({
            let s2 = first_products_part(s, c, n);
            let (a, b) = (at(x, s, t), at(x, s2, t));
            &&& s.ops.len() <= s2.ops.len()
            &&& s2.next_vreg == s.next_vreg
            &&& multiplied(c, a, b)
            &&& b.events == a.events + block_products(c, 0, n as nat)
        }),
    decreases n,
{
    reveal(first_products_part);
    let a = at(x, s, t);
    if n > 0 {
        let i = (n - 1) as u32;
        lemma_first_products(x, s, c, i, t);
        lemma_sum_reg(c, 0, i as int);
        let s1 = first_products_part(s, c, i);
        let s2 = s1.with_op(OpOf::WaitLgkmcnt((2 * (c.p.nct - 1 - i)) as u8));
        assert(at(x, s2, t) == at(x, s1, t));
        let dst = v_plus(c.acc, (8 * i) as u32);
        assert(0 * c.p.nct == 0);
        lemma_product_step(
            x,
            s2,
            c,
            dst,
            c.temps.x_frags,
            v_plus(c.temps.wt_frags, (8 * i) as u32),
            t,
        );
        let b = at(x, first_products_part(s, c, n), t);
        assert(b.events =~= a.events + block_products(c, 0, n as nat));
    } else {
        assert(at(x, first_products_part(s, c, 0), t).events =~= a.events + block_products(
            c,
            0,
            0,
        ));
    }
}

/// Another block of rows times the blocks of columns.
#[verifier::spinoff_prover]
#[verifier::rlimit(60)]
proof fn lemma_row_products(x: Section, s: KernelState, c: Context, row: u32, n: u32, t: u32)
    requires
        x.from <= s.ops.len(),
        c.p.ok(),
        ranked(c, s.next_vreg),
        row < c.p.nrb,
        n <= c.p.nct,
    ensures
        ({
            let s2 = row_products_part(s, c, row, n);
            let (a, b) = (at(x, s, t), at(x, s2, t));
            &&& s.ops.len() <= s2.ops.len()
            &&& s2.next_vreg == s.next_vreg
            &&& multiplied(c, a, b)
            &&& b.events == a.events + block_products(c, row as int, n as nat)
        }),
    decreases n,
{
    reveal(row_products_part);
    let a = at(x, s, t);
    if n > 0 {
        let i = (n - 1) as u32;
        lemma_row_products(x, s, c, row, i, t);
        lemma_sum_reg(c, row as int, i as int);
        lemma_acc_index(c.p, row, i);
        let s1 = row_products_part(s, c, row, i);
        let dst = v_plus(c.acc, ((row * c.p.nct + i) * 8) as u32);
        assert(dst.0 == sum_reg(c, row as int, i as int));
        lemma_product_step(
            x,
            s1,
            c,
            dst,
            v_plus(c.temps.x_frags, (8 * row) as u32),
            v_plus(c.temps.wt_frags, (8 * i) as u32),
            t,
        );
        let b = at(x, row_products_part(s, c, row, n), t);
        assert(b.events =~= a.events + block_products(c, row as int, n as nat));
    } else {
        assert(at(x, row_products_part(s, c, row, 0), t).events =~= a.events + block_products(
            c,
            row as int,
            0,
        ));
    }
}

/// Reading one block of the left input.
#[verifier::spinoff_prover]
#[verifier::rlimit(60)]
proof fn lemma_read_block(
    x: Section,
    s: KernelState,
    g: Gemm,
    c: Context,
    buf: VReg,
    step: u32,
    block: u32,
    t: u32,
)
    requires
        x.from <= s.ops.len(),
        readable(g, c, buf, at(x, s, t), t, s.next_vreg),
        step < c.p.sub_steps,
        block < c.p.nrb,
    ensures
        ({
            let s2 = read_frag_part(
                s,
                v_plus(c.temps.x_frags, (8 * block) as u32),
                c.temps.frag,
                v_plus(c.reads.x, block),
                buf,
                (step * 32) as u16,
            );
            let (a, b) = (at(x, s, t), at(x, s2, t));
            &&& s.ops.len() <= s2.ops.len()
            &&& s2.next_vreg == s.next_vreg
            &&& multiplied(c, a, b)
            &&& b.events == a.events + x_reads(
                g,
                c,
                a.v[buf.0] as int,
                t,
                block as int,
                step as int,
            )
        }),
{
    let a = at(x, s, t);
    lemma_read_places(g, c, a, buf, t, s.next_vreg);
    let dst = v_plus(c.temps.x_frags, (8 * block) as u32);
    let base = v_plus(c.reads.x, block);
    lemma_read_frag(x, s, dst, c.temps.frag, base, buf, (step * 32) as u16, t);
    let s2 = read_frag_part(s, dst, c.temps.frag, base, buf, (step * 32) as u16);
    let b = at(x, s2, t);
    assert(b.events =~= a.events + x_reads(
        g,
        c,
        a.v[buf.0] as int,
        t,
        block as int,
        step as int,
    ));
}

/// Reading a buffer stays possible while it is multiplied.
proof fn lemma_readable(
    g: Gemm,
    c: Context,
    buf: VReg,
    a: Thread,
    b: Thread,
    t: u32,
    next_vreg: nat,
)
    requires
        readable(g, c, buf, a, t, next_vreg),
        multiplied(c, a, b),
    ensures
        readable(g, c, buf, b, t, next_vreg),
        b.v[buf.0] == a.v[buf.0],
{
    lemma_set_up_stays(g, c, a, b, t, next_vreg);
}

/// The blocks of rows behind the first.
#[verifier::spinoff_prover]
#[verifier::rlimit(60)]
proof fn lemma_later_rows(
    x: Section,
    s: KernelState,
    g: Gemm,
    c: Context,
    buf: VReg,
    step: u32,
    n: u32,
    t: u32,
)
    requires
        x.from <= s.ops.len(),
        readable(g, c, buf, at(x, s, t), t, s.next_vreg),
        step < c.p.sub_steps,
        n < c.p.nrb,
    ensures
        ({
            let s2 = later_rows_part(s, c, buf, step, n);
            let (a, b) = (at(x, s, t), at(x, s2, t));
            &&& s.ops.len() <= s2.ops.len()
            &&& s2.next_vreg == s.next_vreg
            &&& multiplied(c, a, b)
            &&& b.events == a.events + later_blocks(
                g,
                c,
                a.v[buf.0] as int,
                t,
                step as int,
                n as nat,
            )
        }),
    decreases n,
{
    reveal(later_rows_part);
    let a = at(x, s, t);
    let place = a.v[buf.0] as int;
    if n > 0 {
        let i = (n - 1) as u32;
        lemma_later_rows(x, s, g, c, buf, step, i, t);
        let s1 = later_rows_part(s, c, buf, step, i);
        let b1 = at(x, s1, t);
        lemma_readable(g, c, buf, a, b1, t, s.next_vreg);
        lemma_read_block(x, s1, g, c, buf, step, n, t);
        let s2 = read_frag_part(
            s1,
            v_plus(c.temps.x_frags, (8 * n) as u32),
            c.temps.frag,
            v_plus(c.reads.x, n),
            buf,
            (step * 32) as u16,
        );
        let s3 = s2.with_op(OpOf::WaitLgkmcnt(0));
        assert(at(x, s3, t) == at(x, s2, t));
        lemma_row_products(x, s3, c, n, c.p.nct, t);
        let s4 = row_products_part(s3, c, n, c.p.nct);
        assert(s4 == later_rows_part(s, c, buf, step, n));
        let b = at(x, s4, t);
        assert(b.events =~= a.events + later_blocks(g, c, place, t, step as int, n as nat));
    } else {
        assert(at(x, later_rows_part(s, c, buf, step, 0), t).events =~= a.events + later_blocks(
            g,
            c,
            place,
            t,
            step as int,
            0,
        ));
    }
}

/// One step along K.
spec fn step_part(s: KernelState, c: Context, buf: VReg, i: u32) -> KernelState {
    let s = read_frag_part(s, c.temps.x_frags, c.temps.frag, c.reads.x, buf, (i * 32) as u16);
    let s = read_wts_part(s, c, buf, i, c.p.nct);
    let s = first_products_part(s, c, c.p.nct);
    later_rows_part(s, c, buf, i, (c.p.nrb - 1) as u32)
}

/// One step along K.
#[verifier::spinoff_prover]
#[verifier::rlimit(60)]
proof fn lemma_step(
    x: Section,
    s: KernelState,
    g: Gemm,
    c: Context,
    buf: VReg,
    i: u32,
    t: u32,
)
    requires
        x.from <= s.ops.len(),
        readable(g, c, buf, at(x, s, t), t, s.next_vreg),
        i < c.p.sub_steps,
    ensures
        ({
            let s2 = step_part(s, c, buf, i);
            let (a, b) = (at(x, s, t), at(x, s2, t));
            &&& s.ops.len() <= s2.ops.len()
            &&& s2.next_vreg == s.next_vreg
            &&& multiplied(c, a, b)
            &&& b.events == a.events + step_events(g, c, a.v[buf.0] as int, t, i as int)
        }),
{
    let a = at(x, s, t);
    let place = a.v[buf.0] as int;
    let n = s.next_vreg;
    lemma_read_block(x, s, g, c, buf, i, 0, t);
    assert(v_plus(c.temps.x_frags, 0) == c.temps.x_frags && v_plus(c.reads.x, 0) == c.reads.x);
    let s2 = read_frag_part(s, c.temps.x_frags, c.temps.frag, c.reads.x, buf, (i * 32) as u16);
    let b2 = at(x, s2, t);
    lemma_readable(g, c, buf, a, b2, t, n);
    lemma_read_wts(x, s2, g, c, buf, i, c.p.nct, t);
    let s3 = read_wts_part(s2, c, buf, i, c.p.nct);
    let b3 = at(x, s3, t);
    lemma_readable(g, c, buf, b2, b3, t, n);
    lemma_first_products(x, s3, c, c.p.nct, t);
    let s4 = first_products_part(s3, c, c.p.nct);
    let b4 = at(x, s4, t);
    lemma_readable(g, c, buf, b3, b4, t, n);
    lemma_later_rows(x, s4, g, c, buf, i, (c.p.nrb - 1) as u32, t);
    let b = at(x, step_part(s, c, buf, i), t);
    assert(b.events =~= a.events + step_events(g, c, place, t, i as int));
}

/// A buffer is multiplied: in every step along K a wave reads all its fragments, sixteen rows
/// of the left input for each block and sixteen of the right input for each block of columns,
/// and adds each product to its own sums.
#[verifier::spinoff_prover]
#[verifier::rlimit(60)]
pub proof fn buffers_are_multiplied(
    x: Section,
    s: KernelState,
    g: Gemm,
    c: Context,
    buf: VReg,
    n: u32,
    t: u32,
)
    requires
        x.from <= s.ops.len(),
        ranked(c, s.next_vreg),
        generable(g.cfg),
        set_up(g, c, at(x, s, t), t),
        t / 32 < g.cfg.waves(),
        buf == c.st.buf0 || buf == c.st.buf1,
        n <= c.p.sub_steps,
    ensures
        ({
            let s2 = products_part(s, c, buf, n);
            let (a, b) = (at(x, s, t), at(x, s2, t));
            &&& s.ops.len() <= s2.ops.len()
            &&& s2.next_vreg == s.next_vreg
            &&& multiplied(c, a, b)
            &&& set_up(g, c, b, t)
            &&& b.events == a.events + buffer_events(g, c, a.v[buf.0] as int, t, n as nat)
        }),
    decreases n,
{
    reveal(products_part);
    lemma_plan_bounds(g.cfg);
    let a = at(x, s, t);
    let place = a.v[buf.0] as int;
    if n > 0 {
        let i = (n - 1) as u32;
        buffers_are_multiplied(x, s, g, c, buf, i, t);
        let s1 = products_part(s, c, buf, i);
        let b1 = at(x, s1, t);
        assert(readable(g, c, buf, a, t, s.next_vreg));
        lemma_readable(g, c, buf, a, b1, t, s.next_vreg);
        lemma_step(x, s1, g, c, buf, i, t);
        assert(step_part(s1, c, buf, i) == products_part(s, c, buf, n));
        let b5 = at(x, products_part(s, c, buf, n), t);
        lemma_readable(g, c, buf, b1, b5, t, s.next_vreg);
        assert(b5.events =~= a.events + buffer_events(g, c, place, t, n as nat));
    } else {
        assert(at(x, products_part(s, c, buf, 0), t).events =~= a.events + buffer_events(
            g,
            c,
            place,
            t,
            0,
        ));
    }
}

// ── Behind the loop ──
/// A sum as it is stored: with the bias of its column, and not below zero, as configured.
pub open spec fn finished(g: Gemm, bias: Option<u32>, sum: u32) -> u32 {
    let f = g.machine.floats;
    let x = match bias {
        Some(b) => f.plus(sum, b),
        None => sum,
    };
    if plan_of(g.cfg).relu {
        (f.binary)(BinOpKind::Max, x, 0)
    } else {
        x
    }
}

/// The stores of `n` sums from register `first` on, each two rows below the last.
pub open spec fn value_stores(
    g: Gemm,
    from: int,
    stride: int,
    bias: Option<u32>,
    sums: spec_fn(int) -> u32,
    n: nat,
) -> Seq<Event> {
    Seq::new(
        n,
        |i: int| Event::Store { at: from + i * stride, word: finished(g, bias, sums(i)) },
    )
}

/// The word of the bias, where there is one.
pub open spec fn bias_word(bias: Option<VReg>, th: Thread) -> Option<u32> {
    match bias {
        Some(r) => Some(th.v[r.0]),
        None => None,
    }
}

/// Finishing and storing the sums of one lane and column.
#[verifier::spinoff_prover]
#[verifier::rlimit(60)]
proof fn lemma_store_values(
    x: Section,
    s: KernelState,
    g: Gemm,
    c: Context,
    regs: StoreRegs,
    addr: VReg,
    first: VReg,
    bias: Option<VReg>,
    n: u32,
    t: u32,
)
    requires
        x.from <= s.ops.len(),
        x.machine == g.machine,
        c.p == plan_of(g.cfg),
        n <= 8,
        addr.0 <= REG_LIMIT,
        first.0 <= REG_LIMIT,
        outside(addr.0 as int, first, 8),
        outside(addr.0 + 1, first, 8),
        outside(regs.row_stride.0 as int, first, 8),
        outside(regs.row_stride.0 as int, addr, 2),
        bias matches Some(r) ==> outside(r.0 as int, first, 8) && outside(r.0 as int, addr, 2),
        at(x, s, t).pair(addr) + 7 * at(x, s, t).v[regs.row_stride.0] <= u64::MAX,
    ensures
        ({
            let s2 = store_values_part(s, c, regs, addr, first, bias, n);
            let (a, b) = (at(x, s, t), at(x, s2, t));
            let (from, stride) = (a.pair(addr), a.v[regs.row_stride.0] as int);
            let sums = |i: int| a.v[(first.0 + i) as u32];
            &&& s.ops.len() <= s2.ops.len()
            &&& s2.next_vreg == s.next_vreg
            &&& s2.next_sreg == s.next_sreg
            &&& b.s == a.s
            &&& b.events == a.events + value_stores(
                g,
                from,
                stride,
                bias_word(bias, a),
                sums,
                n as nat,
            )
            &&& b.pair(addr) == from + stride * if n < 8 {
                n as int
            } else {
                7
            }
            &&& forall|r: u32|
                outside(r as int, first, n as int) && outside(r as int, addr, 2)
                    ==> #[trigger] b.v[r] == a.v[r]
        }),
    decreases n,
{
    reveal(store_values_part);
    let a = at(x, s, t);
    let (from, stride) = (a.pair(addr), a.v[regs.row_stride.0] as int);
    let sums = |i: int| a.v[(first.0 + i) as u32];
    let word = bias_word(bias, a);
    if n > 0 {
        let i = (n - 1) as u32;
        lemma_store_values(x, s, g, c, regs, addr, first, bias, i, t);
        let s1 = store_values_part(s, c, regs, addr, first, bias, i);
        let b1 = at(x, s1, t);
        let reg = v_plus(first, i);
        assert(b1.v[reg.0] == sums(i as int));
        assert(b1.v[regs.row_stride.0] == stride);
        let s2 = match bias {
            Some(bv) => s1.with_op(
                OpOf::VAddF32 { dst: reg, src0: Operand::VReg(reg), src1: Operand::VReg(bv) },
            ),
            None => s1,
        };
        let s3 = if c.p.relu {
            s2.with_op(
                OpOf::VMaxF32 {
                    dst: reg,
                    src0: Operand::VReg(reg),
                    src1: Operand::InlineFloat(0),
                },
            )
        } else {
            s2
        };
        let b3 = at(x, s3, t);
        assert(b3.v[reg.0] == finished(g, word, sums(i as int))) by {
            if let Some(bv) = bias {
                assert(b1.v[bv.0] == a.v[bv.0]);
            }
        }
        assert(b3.pair(addr) == b1.pair(addr));
        assert(b3.events == b1.events);
        let s4 = s3.with_op(
            OpOf::GlobalStore { addr, src: reg, width: Width::B32, offset: 0 },
        );
        let b4 = at(x, s4, t);
        assert(stride * i == i * stride) by (nonlinear_arith);
        assert(b4.events =~= a.events + value_stores(g, from, stride, word, sums, n as nat));
        let s5 = store_values_part(s, c, regs, addr, first, bias, n);
        let b5 = at(x, s5, t);
        if i < 7 {
            assert(from + stride * i + stride <= from + 7 * stride && from + stride * i + stride
                == from + stride * n) by (nonlinear_arith)
                requires
                    i + 1 <= 7,
                    n == i + 1,
                    0 <= stride,
            ;
            lemma_pair_sum(x.machine, b4, addr, regs.row_stride);
            assert(b5.pair(addr) == from + stride * n);
        } else {
            assert(b5 == b4);
        }
        assert forall|r: u32|
            outside(r as int, first, n as int) && outside(r as int, addr, 2) implies (
        #[trigger] b5.v[r]) == a.v[r] by {
            assert(b1.v[r] == a.v[r]);
        }
    } else {
        assert(stride * 0 == 0);
        assert(at(x, store_values_part(s, c, regs, addr, first, bias, 0), t).events =~= a.events
            + value_stores(g, from, stride, word, sums, 0));
    }
}

/// What all stores share.
#[verifier::spinoff_prover]
#[verifier::rlimit(60)]
proof fn lemma_store_regs(x: Section, s: KernelState, g: Gemm, c: Context, t: u32)
    requires
        inside(x, s, 5, 0),
        g.fits(),
        ranked(c, s.next_vreg),
        set_up(g, c, at(x, s, t), t),
    ensures
        ({
            let (s2, r) = store_regs_part(s, c);
            let b = at(x, s2, t);
            &&& s2.next_vreg == s.next_vreg + 5
            &&& s2.next_sreg == s.next_sreg
            &&& s.ops.len() <= s2.ops.len()
            &&& kept(at(x, s, t), b, s)
            &&& b.s == at(x, s, t).s
            &&& r.lane_half.0 == s.next_vreg
            &&& r.n_vreg.0 == s.next_vreg + 1
            &&& r.row_stride.0 == s.next_vreg + 2
            &&& r.col_bytes.0 == s.next_vreg + 4
            &&& b.v[r.lane_half.0] == (t % 32) / 16
            &&& b.v[r.n_vreg.0] == g.n()
            &&& b.v[r.row_stride.0] == 8 * g.n()
            &&& b.v[r.col_bytes.0] == 4 * (g.col0() + t as int % 16)
        }),
{
    reveal(store_regs_part);
    vstd::arithmetic::power2::lemma2_to64();
    lemma_row0(g);
    let a = at(x, s, t);
    assert(4 * g.n() * 2 <= 4 * g.n() * (g.row0() + g.cfg.tile_m)) by (nonlinear_arith)
        requires
            2 <= g.row0() + g.cfg.tile_m,
            0 <= g.n(),
    ;
    let n = s.next_vreg;
    let (lane_half, n_vreg, row_stride) = (
        VReg(n as u32),
        VReg((n + 1) as u32),
        VReg((n + 2) as u32),
    );
    let s1 = s.with_vregs(1, Alignment::Align1).with_op(
        OpOf::VLshrrevB32 { dst: lane_half, shift: 4, src: c.thread.lane_id },
    );
    assert(at(x, s1, t).v[lane_half.0] == (t % 32) / 16);
    let s2 = s1.with_vregs(1, Alignment::Align1).with_op(
        OpOf::VMovFromSgpr { dst: n_vreg, src: c.args.n_dim },
    );
    assert(g.n() * pow2(3) == 8 * g.n()) by (nonlinear_arith)
        requires
            pow2(3) == 8,
    ;
    let s3 = s2.with_vregs(1, Alignment::Align1).with_op(
        OpOf::VLshlrevB32 { dst: row_stride, shift: 3, src: n_vreg },
    );
    assert(at(x, s3, t).v[row_stride.0] == 8 * g.n());
    let col_base = VReg((n + 3) as u32);
    let s4 = s3.with_vregs(1, Alignment::Align1).with_op(
        OpOf::VMovFromSgpr { dst: col_base, src: c.rows.base_n },
    ).with_op(
        OpOf::VAddU32 {
            dst: col_base,
            src0: Operand::VReg(col_base),
            src1: Operand::VReg(c.thread.lane_row),
        },
    );
    let col = g.col0() + t as int % 16;
    assert(at(x, s4, t).v[col_base.0] == col);
    assert(col * pow2(2) == 4 * col) by (nonlinear_arith)
        requires
            pow2(2) == 4,
    ;
}

/// The output row of the first sum of a lane in a block of rows; each further sum lies two rows
/// below.
pub open spec fn out_row(g: Gemm, t: u32, block: int) -> int {
    g.row0() + (t / 32) * g.cfg.wave_rows() + 16 * block + (t % 32) / 16
}

/// The output column of a lane in a block of columns.
pub open spec fn out_col(g: Gemm, t: u32, col: int) -> int {
    g.col0() + 16 * col + t as int % 16
}

/// Where an output lies.
pub open spec fn out_at(g: Gemm, row: int, col: int) -> int {
    g.address(16) + g.part() * g.part_bytes() + 4 * (row * g.n() + col)
}

/// Where the bias of a column lies.
pub open spec fn bias_at(g: Gemm, t: u32, col: int) -> int {
    g.address(40) + 4 * out_col(g, t, col)
}

/// The bias of a column, where there is one.
pub open spec fn column_bias(g: Gemm, t: u32, col: int) -> Option<u32> {
    if plan_of(g.cfg).bias {
        Some((g.machine.words)(bias_at(g, t, col)))
    } else {
        None
    }
}

/// Loading the bias of a column, where there is one.
pub open spec fn bias_loads(g: Gemm, t: u32, col: int, dst: u32) -> Seq<Event> {
    if plan_of(g.cfg).bias {
        seq![Event::Load { at: bias_at(g, t, col), count: 1, dst }]
    } else {
        Seq::empty()
    }
}

/// Whether the bias can be addressed.
pub open spec fn bias_fits(g: Gemm) -> bool {
    plan_of(g.cfg).bias ==> g.address(40) + 4 * (g.col0() + g.cfg.tile_n) <= u64::MAX
}

/// Loading the bias of a column.
#[verifier::spinoff_prover]
#[verifier::rlimit(60)]
proof fn lemma_load_bias(
    x: Section,
    s: KernelState,
    c: Context,
    bias: SRegPair,
    col: u32,
    t: u32,
    from: int,
    place: int,
)
    requires
        inside(x, s, 6, 0),
        col < 8,
        bias.0 < u32::MAX,
        c.thread.lane_row.0 < s.next_vreg,
        ({
            let a = at(x, s, t);
            &&& a.s[bias.0] + 0x1_0000_0000 * a.s[(bias.0 + 1) as u32] == from
            &&& a.s[c.rows.base_n.0] + a.v[c.thread.lane_row.0] + 16 * col == place
        }),
        4 * place <= u32::MAX,
        from + 4 * place <= u64::MAX,
    ensures
        ({
            let (s2, r) = load_bias_part(s, c, bias, col);
            let (a, b) = (at(x, s, t), at(x, s2, t));
            &&& s2.next_vreg == s.next_vreg + 5
            &&& s2.next_sreg == s.next_sreg
            &&& s.ops.len() <= s2.ops.len()
            &&& b.s == a.s
            &&& forall|q: u32| q < s.next_vreg ==> #[trigger] b.v[q] == a.v[q]
            &&& r.0 == s.next_vreg
            &&& b.v[r.0] == (x.machine.words)(from + 4 * place)
            &&& b.events == a.events.push(
                Event::Load { at: from + 4 * place, count: 1, dst: r.0 },
            )
        }),
{
    reveal(load_bias_part);
    vstd::arithmetic::power2::lemma2_to64();
    let a = at(x, s, t);
    let n = s.next_vreg;
    let (value, addr) = (VReg(n as u32), VReg((n + 1) as u32));
    let (bias_col, byte_off) = (VReg((n + 3) as u32), VReg((n + 4) as u32));
    let s1 = s.with_vregs(1, Alignment::Align1).with_vregs(2, Alignment::Align2).with_op(
        OpOf::VMovFromSgpr { dst: addr, src: SReg(bias.0) },
    ).with_op(OpOf::VMovFromSgpr { dst: v_plus(addr, 1), src: s_plus(SReg(bias.0), 1) });
    let b1 = at(x, s1, t);
    assert(b1.pair(addr) == from);
    let s2 = s1.with_vregs(1, Alignment::Align1).with_op(
        OpOf::VMovFromSgpr { dst: bias_col, src: c.rows.base_n },
    ).with_op(
        OpOf::VAddU32 {
            dst: bias_col,
            src0: Operand::VReg(bias_col),
            src1: Operand::VReg(c.thread.lane_row),
        },
    );
    let b2 = at(x, s2, t);
    assert(b2.v[bias_col.0] == place - 16 * col);
    let s3 = if col > 0 {
        s2.with_op(
            OpOf::VAddU32 {
                dst: bias_col,
                src0: Operand::VReg(bias_col),
                src1: Operand::InlineInt((col * 16) as i32),
            },
        )
    } else {
        s2
    };
    let b3 = at(x, s3, t);
    assert(b3.v[bias_col.0] == place);
    assert(b3.pair(addr) == from);
    assert(place * pow2(2) == 4 * place) by (nonlinear_arith)
        requires
            pow2(2) == 4,
    ;
    let s4 = s3.with_vregs(1, Alignment::Align1).with_op(
        OpOf::VLshlrevB32 { dst: byte_off, shift: 2, src: bias_col },
    );
    let b4 = at(x, s4, t);
    assert(b4.v[byte_off.0] == 4 * place);
    assert(b4.pair(addr) == from);
    let s5 = s4.with_op(OpOf::VAddCo { dst: addr, src0: addr, src1: byte_off }).with_op(
        OpOf::VAddCoCi { dst: v_plus(addr, 1), src: v_plus(addr, 1) },
    );
    let b5 = at(x, s5, t);
    lemma_pair_sum(x.machine, b4, addr, byte_off);
    assert(b5.pair(addr) == from + 4 * place);
    assert(forall|q: u32| q < n ==> #[trigger] b5.v[q] == a.v[q]);
    assert(b5.events == a.events && b5.s == a.s);
    let s6 = s5.with_op(OpOf::GlobalLoad { dst: value, addr, width: Width::B32, offset: 0 });
    let m = x.machine.words;
    let here = b5.pair(addr) + 0;
    lemma_with_vs(b5, value, 1, |j: int| m(here + 4 * j));
    let (s7, r) = load_bias_part(s, c, bias, col);
    assert(s7 == s6.with_op(OpOf::WaitVmcnt(0)));
    assert(at(x, s7, t) == at(x, s6, t));
}

/// The bias of a column.
#[verifier::spinoff_prover]
#[verifier::rlimit(60)]
proof fn lemma_bias_value(x: Section, s: KernelState, g: Gemm, c: Context, col: u32, t: u32)
    requires
        inside(x, s, 6, 0),
        x.machine == g.machine,
        g.fits(),
        bias_fits(g),
        ranked(c, s.next_vreg),
        set_up(g, c, at(x, s, t), t),
        col < c.p.nct,
    ensures
        ({
            let (s2, r) = bias_value_part(s, c, col);
            let (a, b) = (at(x, s, t), at(x, s2, t));
            &&& s2.next_vreg == s.next_vreg + if c.p.bias {
                5nat
            } else {
                0
            }
            &&& s2.next_sreg == s.next_sreg
            &&& s.ops.len() <= s2.ops.len()
            &&& b.s == a.s
            &&& forall|q: u32| q < s.next_vreg ==> #[trigger] b.v[q] == a.v[q]
            &&& b.events == a.events + bias_loads(g, t, col as int, s.next_vreg as u32)
            &&& bias_word(r, b) == column_bias(g, t, col as int)
            &&& r matches Some(q) ==> q.0 == s.next_vreg
        }),
{
    reveal(bias_value_part);
    lemma_row0(g);
    lemma_plan_bounds(g.cfg);
    let a = at(x, s, t);
    match c.args.bias {
        Some(bias) => {
            let place = out_col(g, t, col as int);
            assert(16 * col + 16 <= g.cfg.tile_n);
            lemma_load_bias(x, s, c, bias, col, t, g.address(40), place);
            let (s2, r) = load_bias_part(s, c, bias, col);
            assert(at(x, s2, t).events =~= a.events + bias_loads(
                g,
                t,
                col as int,
                s.next_vreg as u32,
            ));
        },
        None => {
            assert(a.events =~= a.events + bias_loads(g, t, col as int, s.next_vreg as u32));
        },
    }
}

/// Registers that storing a column takes.
pub open spec fn column_regs(p: Plan) -> nat {
    if p.bias {
        7
    } else {
        2
    }
}

/// The stores of `n` blocks of columns of a block of rows, with the loads of their biases.
pub open spec fn column_events(
    g: Gemm,
    c: Context,
    t: u32,
    block: int,
    sums: spec_fn(int) -> u32,
    reg: nat,
    n: nat,
) -> Seq<Event>
    decreases n,
{
    if n == 0 {
        Seq::empty()
    } else {
        let j = n - 1;
        column_events(g, c, t, block, sums, reg, (n - 1) as nat) + bias_loads(
            g,
            t,
            j,
            (reg + column_regs(c.p) * j) as u32,
        ) + value_stores(
            g,
            out_at(g, out_row(g, t, block), out_col(g, t, j)),
            8 * g.n(),
            column_bias(g, t, j),
            |i: int| sums(sum_reg(c, block, j) + i),
            8,
        )
    }
}

/// What the stores of a block of rows need.
spec fn storable(
    x: Section,
    s: KernelState,
    g: Gemm,
    c: Context,
    regs: StoreRegs,
    y_base: VReg,
    block: int,
    t: u32,
) -> bool {
    let a = at(x, s, t);
    &&& inside(x, s, 64, 0)
    &&& x.machine == g.machine
    &&& g.fits()
    &&& bias_fits(g)
    &&& c.p.ok()
    &&& ranked(c, s.next_vreg)
    &&& set_up(g, c, a, t)
    &&& 0 <= block < c.p.nrb
    &&& c.acc.0 + 8 * (c.p.nrb * c.p.nct) <= regs.row_stride.0 < s.next_vreg
    &&& a.v[regs.row_stride.0] == 8 * g.n()
    &&& c.acc.0 + 8 * (c.p.nrb * c.p.nct) <= y_base.0
    &&& y_base.0 + 1 < s.next_vreg
    &&& a.pair(y_base) == out_at(g, out_row(g, t, block), out_col(g, t, 0))
    &&& a.pair(y_base) + 64 * (c.p.nct - 1) + 56 * g.n() <= u64::MAX
}

/// The columns of a block of rows.
#[verifier::spinoff_prover]
#[verifier::rlimit(80)]
proof fn lemma_store_cols(
    x: Section,
    s: KernelState,
    g: Gemm,
    c: Context,
    regs: StoreRegs,
    y_base: VReg,
    block: u32,
    n: u32,
    t: u32,
)
    requires
        storable(x, s, g, c, regs, y_base, block as int, t),
        n <= c.p.nct,
    ensures
        ({
            let s2 = store_cols_part(s, c, regs, y_base, block, n);
            let (a, b) = (at(x, s, t), at(x, s2, t));
            let sums = |r: int| a.v[r as u32];
            &&& s2.next_vreg == s.next_vreg + column_regs(c.p) * n
            &&& s2.next_sreg == s.next_sreg
            &&& s.ops.len() <= s2.ops.len()
            &&& b.s == a.s
            &&& b.events == a.events + column_events(
                g,
                c,
                t,
                block as int,
                sums,
                s.next_vreg,
                n as nat,
            )
            &&& forall|r: u32|
                r < s.next_vreg && !(sum_reg(c, block as int, 0) <= r < sum_reg(
                    c,
                    block as int,
                    n as int,
                )) ==> #[trigger] b.v[r] == a.v[r]
        }),
    decreases n,
{
    reveal(store_cols_part);
    let a = at(x, s, t);
    let sums = |r: int| a.v[r as u32];
    let k = column_regs(c.p);
    if n > 0 {
        let j = (n - 1) as u32;
        lemma_store_cols(x, s, g, c, regs, y_base, block, j, t);
        lemma_sum_reg(c, block as int, 0);
        lemma_sum_reg(c, block as int, j as int);
        lemma_acc_index(c.p, block, j);
        assert(k * n == k * j + k) by (nonlinear_arith)
            requires
                n == j + 1,
        ;
        lemma_small_product(k as int, j as int, 7, 7);
        let s1 = store_cols_part(s, c, regs, y_base, block, j);
        let b1 = at(x, s1, t);
        lemma_set_up_stays(g, c, a, b1, t, s.next_vreg);
        let (s2, bias) = bias_value_part(s1, c, j);
        lemma_bias_value(x, s1, g, c, j, t);
        let b2 = at(x, s2, t);
        let addr = VReg(s2.next_vreg as u32);
        let low = if j > 0 {
            Operand::InlineInt((j * 64) as i32)
        } else {
            Operand::VReg(y_base)
        };
        let s3 = s2.with_vregs(2, Alignment::Align2).with_op(
            OpOf::VMov { dst: addr, src: low },
        ).with_op(OpOf::VMov { dst: v_plus(addr, 1), src: Operand::VReg(v_plus(y_base, 1)) });
        let b3 = at(x, s3, t);
        assert(b3.v[y_base.0] == a.v[y_base.0]);
        assert(b3.v[v_plus(addr, 1).0] == a.v[v_plus(y_base, 1).0]);
        let s4 = if j > 0 {
            s3.with_op(OpOf::VAddCo { dst: addr, src0: addr, src1: y_base }).with_op(
                OpOf::VAddCoCi { dst: v_plus(addr, 1), src: v_plus(addr, 1) },
            )
        } else {
            s3
        };
        let b4 = at(x, s4, t);
        if j > 0 {
            assert(b3.v[addr.0] == 64 * j);
            lemma_pair_sum(x.machine, b3, addr, y_base);
        }
        let from = out_at(g, out_row(g, t, block as int), out_col(g, t, j as int));
        assert(b4.pair(addr) == a.pair(y_base) + 64 * j);
        assert(b4.pair(addr) == from);
        let first = v_plus(c.acc, ((block * c.p.nct + j) * 8) as u32);
        assert(first.0 == sum_reg(c, block as int, j as int));
        assert(bias_word(bias, b4) == column_bias(g, t, j as int));
        assert(b4.v[regs.row_stride.0] == 8 * g.n());
        assert(b4.events == b2.events);
        lemma_store_values(x, s4, g, c, regs, addr, first, bias, 8, t);
        let s5 = store_values_part(s4, c, regs, addr, first, bias, 8);
        assert(s5 == store_cols_part(s, c, regs, y_base, block, n));
        let b5 = at(x, s5, t);
        let words = |i: int| b4.v[(first.0 + i) as u32];
        let want = |i: int| sums(sum_reg(c, block as int, j as int) + i);
        assert forall|i: int| 0 <= i < 8 implies #[trigger] words(i) == want(i) by {
            let r = (first.0 + i) as u32;
            assert(b4.v[r] == b2.v[r]);
            assert(b2.v[r] == b1.v[r]);
            assert(b1.v[r] == a.v[r]);
        }
        let bw = column_bias(g, t, j as int);
        assert(value_stores(g, from, 8 * g.n(), bw, words, 8) =~= value_stores(
            g,
            from,
            8 * g.n(),
            bw,
            want,
            8,
        ));
        assert(b5.events =~= a.events + column_events(
            g,
            c,
            t,
            block as int,
            sums,
            s.next_vreg,
            n as nat,
        ));
        assert forall|r: u32|
            r < s.next_vreg && !(sum_reg(c, block as int, 0) <= r < sum_reg(
                c,
                block as int,
                n as int,
            )) implies #[trigger] b5.v[r] == a.v[r] by {
            assert(b5.v[r] == b4.v[r]);
            assert(b4.v[r] == b2.v[r]);
            assert(b2.v[r] == b1.v[r]);
            assert(b1.v[r] == a.v[r]);
        }
    } else {
        assert(k * 0 == 0);
        assert(at(x, store_cols_part(s, c, regs, y_base, block, 0), t).events =~= a.events
            + column_events(g, c, t, block as int, sums, s.next_vreg, 0));
    }
}

/// Registers that storing a block of rows takes.
pub open spec fn row_regs(p: Plan) -> nat {
    5 + column_regs(p) * p.nct as nat
}

/// The stores of `n` blocks of rows.
pub open spec fn row_events(
    g: Gemm,
    c: Context,
    t: u32,
    sums: spec_fn(int) -> u32,
    reg: nat,
    n: nat,
) -> Seq<Event>
    decreases n,
{
    if n == 0 {
        Seq::empty()
    } else {
        row_events(g, c, t, sums, reg, (n - 1) as nat) + column_events(
            g,
            c,
            t,
            n - 1,
            sums,
            reg + row_regs(c.p) * (n - 1) as nat + 5,
            c.p.nct as nat,
        )
    }
}

/// Whether the outputs can be addressed with 64 bits.
pub open spec fn stores_fit(g: Gemm) -> bool {
    out_at(g, g.row0() + g.cfg.tile_m, g.col0() + g.cfg.tile_n) <= u64::MAX
}

/// Rows of outputs lie within the tile.
proof fn lemma_out_row(g: Gemm, t: u32, block: int)
    requires
        g.fits(),
        t / 32 < g.cfg.waves(),
        0 <= block < plan_of(g.cfg).nrb,
    ensures
        0 <= out_row(g, t, block),
        out_row(g, t, block) + 15 <= g.row0() + g.cfg.tile_m,
        0 <= out_row(g, t, block) * g.n(),
        4 * (out_row(g, t, block) * g.n()) + 56 * g.n() <= 4 * ((g.row0() + g.cfg.tile_m)
            * g.n()),
        4 * (out_row(g, t, block) * g.n()) <= u32::MAX,
        out_at(g, out_row(g, t, block), 0) == g.address(16) + g.part() * g.part_bytes() + 4 * (
        out_row(g, t, block) * g.n()),
        0 <= g.part() * g.part_bytes(),
{
    lemma_row0(g);
    lemma_shifts(g.cfg);
    let w = t as int / 32;
    lemma_wave_rows(g.cfg, w);
    let (row, n, end) = (out_row(g, t, block), g.n(), g.row0() + g.cfg.tile_m);
    assert(16 * block + 16 <= g.cfg.wave_rows());
    assert(0 <= row * n && 4 * (row * n) + 56 * n <= 4 * (end * n) && 4 * n * end == 4 * (end * n))
        by (nonlinear_arith)
        requires
            0 <= row,
            row + 15 <= end,
            0 <= n,
    ;
    assert(0 <= g.part() * g.part_bytes()) by (nonlinear_arith)
        requires
            0 <= g.part(),
            0 <= g.part_bytes(),
    ;
}

/// The start of a block of rows in the output.
spec fn row_start_part(s: KernelState, c: Context, regs: StoreRegs, i: u32) -> KernelState {
    let n = s.next_vreg;
    let (base_row, row_bytes) = (VReg(n as u32), VReg((n + 1) as u32));
    let (y_base, y_off) = (VReg((n + 2) as u32), VReg((n + 4) as u32));
    s.with_vregs(1, Alignment::Align1).with_op(
        OpOf::VMovFromSgpr { dst: base_row, src: row_base_of(c.rows, i) },
    ).with_op(
        OpOf::VAddU32 {
            dst: base_row,
            src0: Operand::VReg(base_row),
            src1: Operand::VReg(regs.lane_half),
        },
    ).with_vregs(1, Alignment::Align1).with_op(
        OpOf::VMulLoU32 { dst: row_bytes, src0: base_row, src1: regs.n_vreg },
    ).with_op(OpOf::VLshlrevB32 { dst: row_bytes, shift: 2, src: row_bytes }).with_vregs(
        2,
        Alignment::Align2,
    ).with_op(OpOf::VMovFromSgpr { dst: y_base, src: SReg(c.args.y_ptr.0) }).with_op(
        OpOf::VMovFromSgpr { dst: v_plus(y_base, 1), src: s_plus(SReg(c.args.y_ptr.0), 1) },
    ).with_vregs(1, Alignment::Align1).with_op(
        OpOf::VMovFromSgpr { dst: y_off, src: c.tile.y_offset },
    ).with_op(OpOf::VAddCo { dst: y_base, src0: y_base, src1: y_off }).with_op(
        OpOf::VAddCoCi { dst: v_plus(y_base, 1), src: v_plus(y_base, 1) },
    ).with_op(OpOf::VAddCo { dst: y_base, src0: y_base, src1: row_bytes }).with_op(
        OpOf::VAddCoCi { dst: v_plus(y_base, 1), src: v_plus(y_base, 1) },
    ).with_op(OpOf::VAddCo { dst: y_base, src0: y_base, src1: regs.col_bytes }).with_op(
        OpOf::VAddCoCi { dst: v_plus(y_base, 1), src: v_plus(y_base, 1) },
    )
}

/// Whether the registers that all stores share hold what they should.
spec fn shares(g: Gemm, c: Context, regs: StoreRegs, th: Thread, t: u32, next_vreg: nat) -> bool {
    let end = c.acc.0 + 8 * (c.p.nrb * c.p.nct);
    &&& end <= regs.lane_half.0 < next_vreg
    &&& end <= regs.n_vreg.0 < next_vreg
    &&& end <= regs.row_stride.0 < next_vreg
    &&& end <= regs.col_bytes.0 < next_vreg
    &&& th.v[regs.lane_half.0] == (t % 32) / 16
    &&& th.v[regs.n_vreg.0] == g.n()
    &&& th.v[regs.row_stride.0] == 8 * g.n()
    &&& th.v[regs.col_bytes.0] == 4 * (g.col0() + t as int % 16)
}

/// Where a block of rows begins in the output, as a number.
#[verifier::spinoff_prover]
#[verifier::rlimit(80)]
proof fn lemma_row_address(
    x: Section,
    s: KernelState,
    c: Context,
    regs: StoreRegs,
    i: u32,
    t: u32,
    row: int,
    len: int,
    y: int,
    off: int,
    col: int,
)
    requires
        inside(x, s, 5, 0),
        regs.lane_half.0 < s.next_vreg,
        regs.n_vreg.0 < s.next_vreg,
        regs.col_bytes.0 < s.next_vreg,
        c.args.y_ptr.0 < u32::MAX,
        ({
            let a = at(x, s, t);
            let y_ptr = c.args.y_ptr.0;
            &&& a.s[row_base_of(c.rows, i).0] + a.v[regs.lane_half.0] == row
            &&& a.v[regs.n_vreg.0] == len
            &&& a.s[y_ptr] + 0x1_0000_0000 * a.s[(y_ptr + 1) as u32] == y
            &&& a.s[c.tile.y_offset.0] == off
            &&& a.v[regs.col_bytes.0] == col
        }),
        row <= u32::MAX,
        0 <= row * len,
        4 * (row * len) <= u32::MAX,
        y + off + 4 * (row * len) + col <= u64::MAX,
    ensures
        ({
            let s2 = row_start_part(s, c, regs, i);
            let (a, b) = (at(x, s, t), at(x, s2, t));
            let y_base = VReg((s.next_vreg + 2) as u32);
            &&& s2.next_vreg == s.next_vreg + 5
            &&& s2.next_sreg == s.next_sreg
            &&& s.ops.len() <= s2.ops.len()
            &&& b.events == a.events
            &&& b.s == a.s
            &&& forall|r: u32| r < s.next_vreg ==> #[trigger] b.v[r] == a.v[r]
            &&& b.pair(y_base) == y + off + 4 * (row * len) + col
        }),
{
    vstd::arithmetic::power2::lemma2_to64();
    let a = at(x, s, t);
    let n = s.next_vreg;
    let (base_row, row_bytes) = (VReg(n as u32), VReg((n + 1) as u32));
    let (y_base, y_off) = (VReg((n + 2) as u32), VReg((n + 4) as u32));
    let s1 = s.with_vregs(1, Alignment::Align1).with_op(
        OpOf::VMovFromSgpr { dst: base_row, src: row_base_of(c.rows, i) },
    ).with_op(
        OpOf::VAddU32 {
            dst: base_row,
            src0: Operand::VReg(base_row),
            src1: Operand::VReg(regs.lane_half),
        },
    );
    let b1 = at(x, s1, t);
    assert(b1.v[base_row.0] == row);
    let s2 = s1.with_vregs(1, Alignment::Align1).with_op(
        OpOf::VMulLoU32 { dst: row_bytes, src0: base_row, src1: regs.n_vreg },
    ).with_op(OpOf::VLshlrevB32 { dst: row_bytes, shift: 2, src: row_bytes });
    let b2 = at(x, s2, t);
    assert(row * len * pow2(2) == 4 * (row * len)) by (nonlinear_arith)
        requires
            pow2(2) == 4,
    ;
    assert(b2.v[row_bytes.0] == 4 * (row * len));
    let s3 = s2.with_vregs(2, Alignment::Align2).with_op(
        OpOf::VMovFromSgpr { dst: y_base, src: SReg(c.args.y_ptr.0) },
    ).with_op(
        OpOf::VMovFromSgpr { dst: v_plus(y_base, 1), src: s_plus(SReg(c.args.y_ptr.0), 1) },
    ).with_vregs(1, Alignment::Align1).with_op(
        OpOf::VMovFromSgpr { dst: y_off, src: c.tile.y_offset },
    );
    let b3 = at(x, s3, t);
    assert(b3.pair(y_base) == y);
    assert(b3.v[y_off.0] == off);
    assert(b3.v[row_bytes.0] == 4 * (row * len));
    assert(b3.v[regs.col_bytes.0] == col);
    assert(b3.events == a.events && b3.s == a.s);
    assert(forall|r: u32| r < n ==> #[trigger] b3.v[r] == a.v[r]);
    lemma_three_sums(x, s3, y_base, y_off, row_bytes, regs.col_bytes, t);
    assert(three_sums(s3, y_base, y_off, row_bytes, regs.col_bytes) == row_start_part(
        s,
        c,
        regs,
        i,
    ));
}

/// Adds three words to a 64-bit number.
spec fn three_sums(s: KernelState, y: VReg, a: VReg, b: VReg, c: VReg) -> KernelState {
    s.with_op(OpOf::VAddCo { dst: y, src0: y, src1: a }).with_op(
        OpOf::VAddCoCi { dst: v_plus(y, 1), src: v_plus(y, 1) },
    ).with_op(OpOf::VAddCo { dst: y, src0: y, src1: b }).with_op(
        OpOf::VAddCoCi { dst: v_plus(y, 1), src: v_plus(y, 1) },
    ).with_op(OpOf::VAddCo { dst: y, src0: y, src1: c }).with_op(
        OpOf::VAddCoCi { dst: v_plus(y, 1), src: v_plus(y, 1) },
    )
}

/// The sum of those.
#[verifier::spinoff_prover]
#[verifier::rlimit(60)]
proof fn lemma_three_sums(
    x: Section,
    s: KernelState,
    y: VReg,
    a: VReg,
    b: VReg,
    c: VReg,
    t: u32,
)
    requires
        x.from <= s.ops.len(),
        y.0 <= REG_LIMIT,
        outside(a.0 as int, y, 2),
        outside(b.0 as int, y, 2),
        outside(c.0 as int, y, 2),
        ({
            let th = at(x, s, t);
            th.pair(y) + th.v[a.0] + th.v[b.0] + th.v[c.0] <= u64::MAX
        }),
    ensures
        ({
            let (th, th2) = (at(x, s, t), at(x, three_sums(s, y, a, b, c), t));
            &&& th2.events == th.events
            &&& th2.s == th.s
            &&& forall|r: u32| outside(r as int, y, 2) ==> #[trigger] th2.v[r] == th.v[r]
            &&& th2.pair(y) == th.pair(y) + th.v[a.0] + th.v[b.0] + th.v[c.0]
        }),
{
    let th = at(x, s, t);
    let s1 = s.with_op(OpOf::VAddCo { dst: y, src0: y, src1: a }).with_op(
        OpOf::VAddCoCi { dst: v_plus(y, 1), src: v_plus(y, 1) },
    );
    let th1 = at(x, s1, t);
    lemma_pair_sum(x.machine, th, y, a);
    assert(th1.pair(y) == th.pair(y) + th.v[a.0]);
    assert(th1.v[b.0] == th.v[b.0]);
    let s2 = s1.with_op(OpOf::VAddCo { dst: y, src0: y, src1: b }).with_op(
        OpOf::VAddCoCi { dst: v_plus(y, 1), src: v_plus(y, 1) },
    );
    let th2 = at(x, s2, t);
    lemma_pair_sum(x.machine, th1, y, b);
    assert(th2.pair(y) == th.pair(y) + th.v[a.0] + th.v[b.0]);
    assert(th2.v[c.0] == th.v[c.0]);
    lemma_pair_sum(x.machine, th2, y, c);
}

/// Where a block of rows begins in the output.
#[verifier::spinoff_prover]
#[verifier::rlimit(80)]
proof fn lemma_row_start(
    x: Section,
    s: KernelState,
    g: Gemm,
    c: Context,
    regs: StoreRegs,
    i: u32,
    t: u32,
)
    requires
        inside(x, s, 69, 0),
        x.machine == g.machine,
        g.fits(),
        bias_fits(g),
        stores_fit(g),
        c.p.ok(),
        ranked(c, s.next_vreg),
        set_up(g, c, at(x, s, t), t),
        shares(g, c, regs, at(x, s, t), t, s.next_vreg),
        t / 32 < g.cfg.waves(),
        i < c.p.nrb,
    ensures
        ({
            let s2 = row_start_part(s, c, regs, i);
            let (a, b) = (at(x, s, t), at(x, s2, t));
            &&& s2.next_vreg == s.next_vreg + 5
            &&& s2.next_sreg == s.next_sreg
            &&& b.events == a.events
            &&& b.s == a.s
            &&& forall|r: u32| r < s.next_vreg ==> #[trigger] b.v[r] == a.v[r]
            &&& storable(x, s2, g, c, regs, VReg((s.next_vreg + 2) as u32), i as int, t)
        }),
{
    lemma_row0(g);
    lemma_out_row(g, t, i as int);
    let a = at(x, s, t);
    let row = out_row(g, t, i as int);
    let col = 4 * (g.col0() + t as int % 16);
    assert(16 * c.p.nct == g.cfg.tile_n);
    lemma_row_address(
        x,
        s,
        c,
        regs,
        i,
        t,
        row,
        g.n(),
        g.address(16),
        g.part() * g.part_bytes(),
        col,
    );
    let s2 = row_start_part(s, c, regs, i);
    let b = at(x, s2, t);
    lemma_set_up_stays(g, c, a, b, t, s.next_vreg);
    assert(ranked(c, s2.next_vreg));
    let y_base = VReg((s.next_vreg + 2) as u32);
    assert(b.pair(y_base) == out_at(g, row, out_col(g, t, 0)));
}

/// The sums are stored: lane by lane, each at its row and column of the output, finished.
#[verifier::spinoff_prover]
#[verifier::rlimit(80)]
proof fn lemma_store_rows(
    x: Section,
    s: KernelState,
    g: Gemm,
    c: Context,
    regs: StoreRegs,
    n: u32,
    t: u32,
)
    requires
        inside(x, s, 276, 0),
        x.machine == g.machine,
        g.fits(),
        bias_fits(g),
        stores_fit(g),
        c.p.ok(),
        ranked(c, s.next_vreg),
        set_up(g, c, at(x, s, t), t),
        shares(g, c, regs, at(x, s, t), t, s.next_vreg),
        t / 32 < g.cfg.waves(),
        n <= c.p.nrb,
    ensures
        ({
            let s2 = store_rows_part(s, c, regs, n);
            let (a, b) = (at(x, s, t), at(x, s2, t));
            let sums = |r: int| a.v[r as u32];
            &&& s2.next_vreg == s.next_vreg + row_regs(c.p) * n
            &&& s2.next_sreg == s.next_sreg
            &&& s.ops.len() <= s2.ops.len()
            &&& b.s == a.s
            &&& b.events == a.events + row_events(g, c, t, sums, s.next_vreg, n as nat)
            &&& forall|r: u32|
                r < s.next_vreg && !(c.acc.0 <= r < sum_reg(c, n as int, 0))
                    ==> #[trigger] b.v[r] == a.v[r]
        }),
    decreases n,
{
    reveal(store_rows_part);
    let a = at(x, s, t);
    let sums = |r: int| a.v[r as u32];
    let k = row_regs(c.p);
    lemma_small_product(column_regs(c.p) as int, c.p.nct as int, 7, 8);
    if n > 0 {
        let i = (n - 1) as u32;
        lemma_store_rows(x, s, g, c, regs, i, t);
        lemma_small_product(k as int, i as int, 61, 3);
        assert(k * n == k * i + k) by (nonlinear_arith)
            requires
                n == i + 1,
        ;
        lemma_sum_reg(c, i as int, 0);
        lemma_sum_reg(c, i as int, c.p.nct - 1);
        assert(sum_reg(c, i as int, c.p.nct as int) == sum_reg(c, n as int, 0)) by {
            assert(i * c.p.nct + c.p.nct == n * c.p.nct) by (nonlinear_arith)
                requires
                    n == i + 1,
            ;
        }
        let s1 = store_rows_part(s, c, regs, i);
        let b1 = at(x, s1, t);
        lemma_set_up_stays(g, c, a, b1, t, s.next_vreg);
        lemma_row_start(x, s1, g, c, regs, i, t);
        let s2 = row_start_part(s1, c, regs, i);
        let b2 = at(x, s2, t);
        let y_base = VReg((s1.next_vreg + 2) as u32);
        lemma_store_cols(x, s2, g, c, regs, y_base, i, c.p.nct, t);
        let s3 = store_cols_part(s2, c, regs, y_base, i, c.p.nct);
        assert(s3 == store_rows_part(s, c, regs, n));
        let b3 = at(x, s3, t);
        let words = |r: int| b2.v[r as u32];
        lemma_same_columns(g, c, t, i as int, words, sums, s2.next_vreg, c.p.nct as nat, b2, a);
        assert(b3.events =~= a.events + row_events(g, c, t, sums, s.next_vreg, n as nat));
        assert forall|r: u32|
            r < s.next_vreg && !(c.acc.0 <= r < sum_reg(c, n as int, 0)) implies #[trigger] b3.v[r]
            == a.v[r] by {
            assert(b3.v[r] == b2.v[r]);
            assert(b2.v[r] == b1.v[r]);
            assert(b1.v[r] == a.v[r]);
        }
    } else {
        assert(k * 0 == 0);
        assert(at(x, store_rows_part(s, c, regs, 0), t).events =~= a.events + row_events(
            g,
            c,
            t,
            sums,
            s.next_vreg,
            0,
        ));
    }
}

/// Columns are stored alike while the sums are alike.
proof fn lemma_same_columns(
    g: Gemm,
    c: Context,
    t: u32,
    block: int,
    words: spec_fn(int) -> u32,
    sums: spec_fn(int) -> u32,
    reg: nat,
    n: nat,
    b: Thread,
    a: Thread,
)
    requires
        c.p.ok(),
        n <= c.p.nct,
        0 <= block < c.p.nrb,
        c.acc.0 <= REG_LIMIT,
        words == (|r: int| b.v[r as u32]),
        sums == (|r: int| a.v[r as u32]),
        forall|r: u32|
            sum_reg(c, block, 0) <= r < sum_reg(c, block, c.p.nct as int) ==> #[trigger] b.v[r]
                == a.v[r],
    ensures
        column_events(g, c, t, block, words, reg, n) == column_events(
            g,
            c,
            t,
            block,
            sums,
            reg,
            n,
        ),
    decreases n,
{
    if n > 0 {
        let j = n - 1;
        lemma_same_columns(g, c, t, block, words, sums, reg, j as nat, b, a);
        lemma_sum_reg(c, block, j);
        let from = out_at(g, out_row(g, t, block), out_col(g, t, j));
        let bias = column_bias(g, t, j);
        let w1 = |i: int| words(sum_reg(c, block, j) + i);
        let w2 = |i: int| sums(sum_reg(c, block, j) + i);
        assert forall|i: int| 0 <= i < 8 implies #[trigger] w1(i) == w2(i) by {
            let r = (sum_reg(c, block, j) + i) as u32;
            assert(b.v[r] == a.v[r]);
        }
        assert(value_stores(g, from, 8 * g.n(), bias, w1, 8) =~= value_stores(
            g,
            from,
            8 * g.n(),
            bias,
            w2,
            8,
        ));
    }
}

// ── Turns in terms of the inputs ──
/// The column, in elements, of a piece of a row when `done` elements of the part are done.
pub open spec fn piece_col(g: Gemm, done: int, piece: int) -> int {
    g.part() * g.part_len() + done + 8 * piece
}

/// Where an element of the left input lies, by row of the tile.
pub open spec fn x_at(g: Gemm, row: int, col: int) -> int {
    g.address(0) + 2 * ((g.row0() + row) * g.k() + col)
}

/// Where an element of the right input lies, by row of the tile.
pub open spec fn wt_at(g: Gemm, row: int, col: int) -> int {
    g.address(8) + 2 * ((g.col0() + row) * g.k() + col)
}

/// The four words, eight elements, from a byte address on.
pub open spec fn four_words(g: Gemm, from: int) -> Seq<u32> {
    Seq::new(4, |j: int| (g.machine.words)(from + 4 * j))
}

/// The row of a tile that a thread loads in a pass.
pub open spec fn pass_row(g: Gemm, t: u32, i: int) -> int {
    g.load_row(t) + i * g.pass_rows()
}

/// What a thread loads of the left input in one turn.
pub open spec fn x_loads(g: Gemm, c: Context, t: u32, done: int) -> Seq<Event> {
    Seq::new(
        c.p.x_loads as nat,
        |i: int|
            Event::Load {
                at: x_at(g, pass_row(g, t, i), piece_col(g, done, g.piece(t))),
                count: 4,
                dst: (c.temps.gmem_x.0 + 4 * i) as u32,
            },
    )
}

/// What a thread loads of the right input in one turn.
pub open spec fn wt_loads(g: Gemm, c: Context, t: u32, done: int) -> Seq<Event> {
    Seq::new(
        c.p.wt_loads as nat,
        |i: int|
            Event::Load {
                at: wt_at(g, pass_row(g, t, i), piece_col(g, done, g.piece(t))),
                count: 4,
                dst: (c.temps.gmem_wt.0 + 4 * i) as u32,
            },
    )
}

/// What a thread puts in a buffer of the left input: each piece where its row and its place
/// in the row say.
pub open spec fn x_pieces(g: Gemm, c: Context, place: int, t: u32, done: int) -> Seq<Event> {
    Seq::new(
        c.p.x_loads as nat,
        |i: int|
            Event::SharedStore {
                at: place + shared_place(g.cfg, pass_row(g, t, i), g.piece(t)),
                words: four_words(
                    g,
                    x_at(g, pass_row(g, t, i), piece_col(g, done, g.piece(t))),
                ),
            },
    )
}

/// What a thread puts in a buffer of the right input.
pub open spec fn wt_pieces(g: Gemm, c: Context, place: int, t: u32, done: int) -> Seq<Event> {
    Seq::new(
        c.p.wt_loads as nat,
        |i: int|
            Event::SharedStore {
                at: place + x_shared(g) + shared_place(g.cfg, pass_row(g, t, i), g.piece(t)),
                words: four_words(
                    g,
                    wt_at(g, pass_row(g, t, i), piece_col(g, done, g.piece(t))),
                ),
            },
    )
}

/// Passes go down the rows.
proof fn lemma_pass_places(g: Gemm, t: u32, done: int, i: int)
    ensures
        ({
            let off = 2 * (g.part() * g.part_len() + done);
            let stride = 2 * g.k() * g.pass_rows();
            let col = piece_col(g, done, g.piece(t));
            let rb = g.cfg.row_bytes();
            &&& x_from(g, t) + off + i * stride == x_at(g, pass_row(g, t, i), col)
            &&& wt_from(g, t) + off + i * stride == wt_at(g, pass_row(g, t, i), col)
            &&& shared_place(g.cfg, g.load_row(t), g.piece(t)) + i * (g.pass_rows() * rb)
                == shared_place(g.cfg, pass_row(g, t, i), g.piece(t))
        }),
{
    let (k, rows, r, rb) = (g.k(), g.pass_rows() as int, g.load_row(t), g.cfg.row_bytes() as int);
    let (a, b) = (g.row0(), g.col0());
    assert(2 * k * (a + r) + i * (2 * k * rows) == 2 * ((a + (r + i * rows)) * k))
        by (nonlinear_arith);
    assert(2 * k * (b + r) + i * (2 * k * rows) == 2 * ((b + (r + i * rows)) * k))
        by (nonlinear_arith);
    assert(r * rb + i * (rows * rb) == (r + i * rows) * rb) by (nonlinear_arith);
}

/// What a thread loads, and what it puts in a buffer, in terms of the inputs.
#[verifier::spinoff_prover]
#[verifier::rlimit(60)]
proof fn lemma_pieces(
    x: Section,
    s: KernelState,
    g: Gemm,
    c: Context,
    place: int,
    t: u32,
    done: int,
    b: Thread,
)
    requires
        ranked(c, s.next_vreg),
        c.p == plan_of(g.cfg),
        c.p.ok(),
        ({
            let off = 2 * (g.part() * g.part_len() + done);
            let stride = 2 * g.k() * g.pass_rows();
            let r0 = c.temps.gmem_x.0;
            let r1 = c.temps.gmem_wt.0;
            &&& forall|r: u32|
                r0 <= r < r1 ==> #[trigger] b.v[r] == (g.machine.words)(
                    x_from(g, t) + off + (r - r0) / 4 * stride + 4 * ((r - r0) % 4),
                )
            &&& forall|r: u32|
                r1 <= r < c.temps.x_frags.0 ==> #[trigger] b.v[r] == (g.machine.words)(
                    wt_from(g, t) + off + (r - r1) / 4 * stride + 4 * ((r - r1) % 4),
                )
        }),
    ensures
        ({
            let off = 2 * (g.part() * g.part_len() + done);
            let stride = 2 * g.k() * g.pass_rows();
            let from = place + shared_place(g.cfg, g.load_row(t), g.piece(t));
            let step = (g.pass_rows() * g.cfg.row_bytes()) as int;
            let (nx, nw) = (c.p.x_loads as nat, c.p.wt_loads as nat);
            &&& pass_loads(x_from(g, t) + off, stride, c.temps.gmem_x, nx) == x_loads(g, c, t, done)
            &&& pass_loads(wt_from(g, t) + off, stride, c.temps.gmem_wt, nw) == wt_loads(
                g,
                c,
                t,
                done,
            )
            &&& pass_stores(from, step, held(b, c.temps.gmem_x), nx) == x_pieces(
                g,
                c,
                place,
                t,
                done,
            )
            &&& pass_stores(x_shared(g) + from, step, held(b, c.temps.gmem_wt), nw) == wt_pieces(
                g,
                c,
                place,
                t,
                done,
            )
        }),
{
    let off = 2 * (g.part() * g.part_len() + done);
    let stride = 2 * g.k() * g.pass_rows();
    let from = place + shared_place(g.cfg, g.load_row(t), g.piece(t));
    let step = (g.pass_rows() * g.cfg.row_bytes()) as int;
    let (nx, nw) = (c.p.x_loads as nat, c.p.wt_loads as nat);
    let (r0, r1) = (c.temps.gmem_x, c.temps.gmem_wt);
    let col = piece_col(g, done, g.piece(t));
    assert forall|i: int| 0 <= i < nx implies #[trigger] pass_loads(
        x_from(g, t) + off,
        stride,
        r0,
        nx,
    )[i] == x_loads(g, c, t, done)[i] by {
        lemma_pass_places(g, t, done, i);
    }
    assert forall|i: int| 0 <= i < nw implies #[trigger] pass_loads(
        wt_from(g, t) + off,
        stride,
        r1,
        nw,
    )[i] == wt_loads(g, c, t, done)[i] by {
        lemma_pass_places(g, t, done, i);
    }
    assert forall|i: int| 0 <= i < nx implies #[trigger] pass_stores(from, step, held(b, r0), nx)[i]
        == x_pieces(g, c, place, t, done)[i] by {
        lemma_pass_places(g, t, done, i);
        let at = x_at(g, pass_row(g, t, i), col);
        let src = VReg((r0.0 + 4 * i) as u32);
        assert forall|j: int| 0 <= j < 4 implies b.four(src)[j] == four_words(g, at)[j] by {
            let r = (src.0 + j) as u32;
            assert((r - r0.0) / 4 == i && (r - r0.0) % 4 == j);
            assert(b.v[r] == (g.machine.words)(at + 4 * j));
        }
        assert(held(b, r0)(i) =~= four_words(g, at));
    }
    assert forall|i: int| 0 <= i < nw implies #[trigger] pass_stores(
        x_shared(g) + from,
        step,
        held(b, r1),
        nw,
    )[i] == wt_pieces(g, c, place, t, done)[i] by {
        lemma_pass_places(g, t, done, i);
        let at = wt_at(g, pass_row(g, t, i), col);
        let src = VReg((r1.0 + 4 * i) as u32);
        assert forall|j: int| 0 <= j < 4 implies b.four(src)[j] == four_words(g, at)[j] by {
            let r = (src.0 + j) as u32;
            assert((r - r1.0) / 4 == i && (r - r1.0) % 4 == j);
            assert(b.v[r] == (g.machine.words)(at + 4 * j));
        }
        assert(held(b, r1)(i) =~= four_words(g, at));
    }
    assert(pass_loads(x_from(g, t) + off, stride, r0, nx) =~= x_loads(g, c, t, done));
    assert(pass_loads(wt_from(g, t) + off, stride, r1, nw) =~= wt_loads(g, c, t, done));
    assert(pass_stores(from, step, held(b, r0), nx) =~= x_pieces(g, c, place, t, done));
    assert(pass_stores(x_shared(g) + from, step, held(b, r1), nw) =~= wt_pieces(
        g,
        c,
        place,
        t,
        done,
    ));
}

/// The first turn: a thread loads its pieces of both inputs and puts them in the first buffer.
#[verifier::spinoff_prover]
#[verifier::rlimit(60)]
pub proof fn the_first_turn_fills_a_buffer(
    x: Section,
    s: KernelState,
    g: Gemm,
    c: Context,
    t: u32,
    done: int,
)
    requires
        x.from <= s.ops.len(),
        x.machine == g.machine,
        g.fits(),
        g.even(),
        t < g.cfg.wg_size,
        ranked(c, s.next_vreg),
        set_up(g, c, at(x, s, t), t),
        come(g, c, at(x, s, t), done),
        0 <= done,
        done + g.cfg.tile_k <= g.part_len(),
    ensures
        ({
            let s2 = fill_part(gmem_load_part(s, c), c, c.st.buf0);
            let (a, b) = (at(x, s, t), at(x, s2, t));
            &&& s2.next_vreg == s.next_vreg
            &&& set_up(g, c, b, t)
            &&& come(g, c, b, done + g.cfg.tile_k)
            &&& b.events == a.events + x_loads(g, c, t, done) + wt_loads(g, c, t, done) + x_pieces(
                g,
                c,
                0,
                t,
                done,
            ) + wt_pieces(g, c, 0, t, done)
            &&& forall|r: u32|
                c.acc.0 <= r < c.acc.0 + 8 * (c.p.nrb * c.p.nct) ==> #[trigger] b.v[r] == a.v[r]
        }),
{
    lemma_plan_ok(g);
    let a = at(x, s, t);
    lemma_gmem_load(x, s, g, c, t, done);
    let s1 = gmem_load_part(s, c);
    let b1 = at(x, s1, t);
    lemma_set_up_stays(g, c, a, b1, t, s.next_vreg);
    lemma_fill(x, s1, g, c, c.st.buf0, t, done);
    lemma_pieces(x, s, g, c, 0, t, done, b1);
}

/// A turn: a thread loads its next pieces of both inputs, multiplies one buffer meanwhile, and
/// puts what it loaded in the other.
#[verifier::spinoff_prover]
#[verifier::rlimit(60)]
pub proof fn turns_multiply_one_buffer_and_fill_the_other(
    x: Section,
    s: KernelState,
    g: Gemm,
    c: Context,
    busy: VReg,
    idle: VReg,
    t: u32,
    done: int,
)
    requires
        x.from <= s.ops.len(),
        x.machine == g.machine,
        g.fits(),
        g.even(),
        t < g.cfg.wg_size,
        ranked(c, s.next_vreg),
        set_up(g, c, at(x, s, t), t),
        come(g, c, at(x, s, t), done),
        0 <= done,
        done + g.cfg.tile_k <= g.part_len(),
        (busy == c.st.buf0 && idle == c.st.buf1) || (busy == c.st.buf1 && idle == c.st.buf0),
    ensures
        ({
            let s2 = load_compute_fill_part(s, c, busy, idle);
            let (a, b) = (at(x, s, t), at(x, s2, t));
            let (from, to) = (a.v[busy.0] as int, a.v[idle.0] as int);
            &&& s2.next_vreg == s.next_vreg
            &&& set_up(g, c, b, t)
            &&& come(g, c, b, done + g.cfg.tile_k)
            &&& b.events == a.events + x_loads(g, c, t, done) + wt_loads(g, c, t, done)
                + buffer_events(g, c, from, t, c.p.sub_steps as nat) + x_pieces(g, c, to, t, done)
                + wt_pieces(g, c, to, t, done)
        }),
{
    reveal(load_compute_fill_part);
    lemma_plan_ok(g);
    lemma_waves(g, t);
    let a = at(x, s, t);
    lemma_gmem_load(x, s, g, c, t, done);
    let s1 = gmem_load_part(s, c);
    let b1 = at(x, s1, t);
    lemma_set_up_stays(g, c, a, b1, t, s.next_vreg);
    buffers_are_multiplied(x, s1, g, c, busy, c.p.sub_steps, t);
    let s2 = products_part(s1, c, busy, c.p.sub_steps);
    let b2 = at(x, s2, t);
    assert(come(g, c, b2, done));
    assert(b2.v[idle.0] == a.v[idle.0] && b1.v[busy.0] == a.v[busy.0]);
    lemma_fill(x, s2, g, c, idle, t, done);
    lemma_pieces(x, s, g, c, a.v[idle.0] as int, t, done, b2);
}

/// Every thread of whole waves has a wave.
proof fn lemma_waves(g: Gemm, t: u32)
    requires
        g.even(),
        t < g.cfg.wg_size,
    ensures
        t / 32 < g.cfg.waves(),
{
}

/// Behind the loop the sums are stored: each lane stores the finished sums of its rows and
/// columns where they lie in the output.
#[verifier::spinoff_prover]
#[verifier::rlimit(60)]
pub proof fn sums_are_stored(x: Section, s: KernelState, g: Gemm, c: Context, t: u32)
    requires
        inside(x, s, 281, 0),
        x.machine == g.machine,
        g.fits(),
        g.even(),
        t < g.cfg.wg_size,
        bias_fits(g),
        stores_fit(g),
        ranked(c, s.next_vreg),
        set_up(g, c, at(x, s, t), t),
    ensures
        ({
            let (s1, regs) = store_regs_part(s, c);
            let s2 = store_rows_part(s1, c, regs, c.p.nrb);
            let (a, b) = (at(x, s, t), at(x, s2, t));
            let sums = |r: int| a.v[r as u32];
            b.events == a.events + row_events(
                g,
                c,
                t,
                sums,
                s.next_vreg + 5,
                c.p.nrb as nat,
            )
        }),
{
    lemma_plan_ok(g);
    lemma_waves(g, t);
    let a = at(x, s, t);
    lemma_store_regs(x, s, g, c, t);
    let (s1, regs) = store_regs_part(s, c);
    let b1 = at(x, s1, t);
    lemma_set_up_stays(g, c, a, b1, t, s.next_vreg);
    lemma_store_rows(x, s1, g, c, regs, c.p.nrb, t);
    let (words, sums) = (|r: int| b1.v[r as u32], |r: int| a.v[r as u32]);
    lemma_same_rows(g, c, t, words, sums, s.next_vreg + 5, c.p.nrb as nat, b1, a);
}

/// Rows are stored alike while the sums are alike.
proof fn lemma_same_rows(
    g: Gemm,
    c: Context,
    t: u32,
    words: spec_fn(int) -> u32,
    sums: spec_fn(int) -> u32,
    reg: nat,
    n: nat,
    b: Thread,
    a: Thread,
)
    requires
        c.p.ok(),
        n <= c.p.nrb,
        c.acc.0 <= REG_LIMIT,
        words == (|r: int| b.v[r as u32]),
        sums == (|r: int| a.v[r as u32]),
        forall|r: u32|
            c.acc.0 <= r < c.acc.0 + 8 * (c.p.nrb * c.p.nct) ==> #[trigger] b.v[r] == a.v[r],
    ensures
        row_events(g, c, t, words, reg, n) == row_events(g, c, t, sums, reg, n),
    decreases n,
{
    if n > 0 {
        let i = n - 1;
        lemma_same_rows(g, c, t, words, sums, reg, i as nat, b, a);
        lemma_sum_reg(c, i, 0);
        lemma_sum_reg(c, i, c.p.nct - 1);
        lemma_same_columns(
            g,
            c,
            t,
            i,
            words,
            sums,
            reg + row_regs(c.p) * i as nat + 5,
            c.p.nct as nat,
            b,
            a,
        );
    }
}

/// The section that begins behind the operations of a kernel so far, with a thread in a state.
pub open spec fn section(g: Gemm, s: KernelState, th: Thread) -> Section {
    Section { machine: g.machine, from: s.ops.len(), start: |u: u32| th }
}

/// The buffer that is filled in a turn: the first one in odd turns.
pub open spec fn turn_buffer(c: Context, n: nat) -> VReg {
    if n % 2 == 1 {
        c.st.buf0
    } else {
        c.st.buf1
    }
}

/// Where that buffer begins.
pub open spec fn turn_place(c: Context, n: nat) -> int {
    if n % 2 == 1 {
        0
    } else {
        c.p.lds_buf as int
    }
}

/// A thread behind `n` turns.
pub open spec fn looped(
    g: Gemm,
    c: Context,
    s: KernelState,
    th: Thread,
    t: u32,
    n: nat,
) -> Thread
    decreases n,
{
    if n == 0 {
        th
    } else if n == 1 {
        at(section(g, s, th), fill_part(gmem_load_part(s, c), c, c.st.buf0), t)
    } else {
        let before = looped(g, c, s, th, t, (n - 1) as nat);
        let (busy, idle) = (turn_buffer(c, (n - 1) as nat), turn_buffer(c, n));
        at(section(g, s, before), load_compute_fill_part(s, c, busy, idle), t)
    }
}

/// What a thread does in turn `n`: it loads, multiplies the buffer of the turn before, if any,
/// and fills a buffer.
pub open spec fn turn_events(g: Gemm, c: Context, t: u32, n: nat) -> Seq<Event> {
    let done = (n - 1) * g.cfg.tile_k;
    let (from, to) = (turn_place(c, (n - 1) as nat), turn_place(c, n));
    x_loads(g, c, t, done) + wt_loads(g, c, t, done) + if n == 1 {
        Seq::empty()
    } else {
        buffer_events(g, c, from, t, c.p.sub_steps as nat)
    } + x_pieces(g, c, to, t, done) + wt_pieces(g, c, to, t, done)
}

/// What a thread does in the first `n` turns.
pub open spec fn loop_events(g: Gemm, c: Context, t: u32, n: nat) -> Seq<Event>
    decreases n,
{
    if n == 0 {
        Seq::empty()
    } else {
        loop_events(g, c, t, (n - 1) as nat) + turn_events(g, c, t, n)
    }
}

/// The turns go through K: turn after turn the next columns of both inputs are put in the two
/// buffers by turns, and each buffer is multiplied before it is filled again.
#[verifier::spinoff_prover]
#[verifier::rlimit(60)]
pub proof fn the_loop_goes_through_k(
    g: Gemm,
    c: Context,
    s: KernelState,
    th: Thread,
    t: u32,
    n: nat,
)
    requires
        g.fits(),
        g.even(),
        t < g.cfg.wg_size,
        ranked(c, s.next_vreg),
        set_up(g, c, th, t),
        come(g, c, th, 0),
        n * g.cfg.tile_k <= g.part_len(),
    ensures
        ({
            let b = looped(g, c, s, th, t, n);
            &&& set_up(g, c, b, t)
            &&& come(g, c, b, n * g.cfg.tile_k)
            &&& b.events == th.events + loop_events(g, c, t, n)
        }),
    decreases n,
{
    let tk = g.cfg.tile_k as int;
    let b = looped(g, c, s, th, t, n);
    if n > 0 {
        let m = (n - 1) as nat;
        let done = m * tk;
        assert(done + tk == n * tk && 0 <= done) by (nonlinear_arith)
            requires
                done == m * tk,
                n == m + 1,
                0 <= tk,
        ;
        the_loop_goes_through_k(g, c, s, th, t, m);
        let before = looped(g, c, s, th, t, m);
        let x = section(g, s, before);
        assert(at(x, s, t) == before);
        assert((n - 1) * g.cfg.tile_k == done);
        if n == 1 {
            assert(0 * tk == 0);
            the_first_turn_fills_a_buffer(x, s, g, c, t, 0);
            assert(b.events =~= th.events + loop_events(g, c, t, n));
        } else {
            let (busy, idle) = (turn_buffer(c, m), turn_buffer(c, n));
            turns_multiply_one_buffer_and_fill_the_other(x, s, g, c, busy, idle, t, done);
            assert(before.v[busy.0] == turn_place(c, m) && before.v[idle.0] == turn_place(c, n));
            assert(b.events =~= th.events + loop_events(g, c, t, n));
        }
    } else {
        assert(0 * tk == 0);
        assert(b.events =~= th.events + loop_events(g, c, t, 0));
    }
}

/// The loop goes on as long as its part of K is not done.
#[verifier::spinoff_prover]
#[verifier::rlimit(60)]
pub proof fn the_loop_ends_with_its_part(
    x: Section,
    s: KernelState,
    g: Gemm,
    c: Context,
    t: u32,
    done: int,
)
    requires
        x.from <= s.ops.len(),
        set_up(g, c, at(x, s, t), t),
        come(g, c, at(x, s, t), done),
    ensures
        ({
            let (k_iter, k_end) = (c.st.k_iter, c.tile.k_end);
            let ge = s.with_op(OpOf::SCmpGeU32 { src0: k_iter, src1: k_end });
            let lt = s.with_op(OpOf::SCmpLtU32 { src0: k_iter, src1: k_end });
            &&& at(x, ge, t).scc <==> done >= g.part_len()
            &&& at(x, lt, t).scc <==> done < g.part_len()
        }),
{
}

// ── Who does what ──
/// The thread that loads a piece of a row, and the pass in which it does.
pub open spec fn loader(g: Gemm, row: int, piece: int) -> (int, int) {
    let rows = g.pass_rows() as int;
    (row % rows * g.pieces() + piece, row / rows)
}

/// In all listed configurations the threads share the work evenly.
pub proof fn listed_configs_are_even(g: Gemm, i: int)
    requires
        (0 <= i < sweep_list().len() && g.cfg == sweep_list()[i]) || (0 <= i
            < standard_list().len() && g.cfg == standard_list()[i]),
    ensures
        g.even(),
{
    let c = g.cfg;
    let rows = g.pass_rows();
    assert(c.wg_size == 32 || c.wg_size == 64 || c.wg_size == 128);
    assert(g.pieces() == 2 || g.pieces() == 4 || g.pieces() == 8);
    assert(rows == 8 || rows == 16 || rows == 32 || rows == 64);
}

/// Every piece of every row is loaded, and by one thread in one pass only.
pub proof fn every_piece_is_loaded_once(
    g: Gemm,
    loads: int,
    row: int,
    piece: int,
    t: u32,
    i: int,
)
    requires
        g.fits(),
        g.even(),
        1 <= g.cfg.wg_size,
        0 <= row < loads * g.pass_rows(),
        0 <= piece < g.pieces(),
        t < g.cfg.wg_size,
        0 <= i < loads,
    ensures
        ({
            let (u, pass) = loader(g, row, piece);
            &&& 0 <= u < g.cfg.wg_size
            &&& 0 <= pass < loads
            &&& pass_row(g, u as u32, pass) == row
            &&& g.piece(u as u32) == piece
            &&& pass_row(g, t, i) == row && g.piece(t) == piece ==> t == u && i == pass
        }),
{
    lemma_load_row(g, 0);
    lemma_load_row(g, t);
    let (rows, pieces) = (g.pass_rows() as int, g.pieces() as int);
    lemma_loader(rows, pieces, loads, row, piece, t as int, i);
}

/// Threads and passes number the pieces of rows.
proof fn lemma_loader(
    rows: int,
    pieces: int,
    loads: int,
    row: int,
    piece: int,
    t: int,
    i: int,
)
    requires
        1 <= rows,
        pieces == 2 || pieces == 4 || pieces == 8,
        0 <= row < loads * rows,
        0 <= piece < pieces,
        0 <= t / pieces < rows,
    ensures
        ({
            let (u, pass) = (row % rows * pieces + piece, row / rows);
            &&& 0 <= u < rows * pieces
            &&& 0 <= pass < loads
            &&& u / pieces + pass * rows == row
            &&& u % pieces == piece
            &&& t / pieces + i * rows == row && t % pieces == piece ==> t == u && i == pass
        }),
{
    let (r, pass) = (row % rows, row / rows);
    let u = r * pieces + piece;
    assert(0 <= r < rows && 0 <= pass < loads && row == pass * rows + r) by (nonlinear_arith)
        requires
            r == row % rows,
            pass == row / rows,
            0 <= row < loads * rows,
            1 <= rows,
    ;
    assert(0 <= u < rows * pieces) by (nonlinear_arith)
        requires
            u == r * pieces + piece,
            0 <= r < rows,
            0 <= piece < pieces,
    ;
    vstd::arithmetic::div_mod::lemma_fundamental_div_mod_converse(u, pieces, r, piece);
    vstd::arithmetic::mul::lemma_mul_is_commutative(r, pieces);
    if t / pieces + i * rows == row && t % pieces == piece {
        vstd::arithmetic::mul::lemma_mul_is_commutative(i, rows);
        vstd::arithmetic::div_mod::lemma_fundamental_div_mod_converse(row, rows, i, t / pieces);
        vstd::arithmetic::div_mod::lemma_fundamental_div_mod(t, pieces);
    }
}

/// Pieces of a buffer do not overlap, and the two inputs lie one behind the other.
pub proof fn places_are_apart(g: Gemm, row: int, piece: int, row2: int, piece2: int)
    requires
        generable(g.cfg),
        0 <= row,
        0 <= row2,
        0 <= piece < g.pieces(),
        0 <= piece2 < g.pieces(),
    ensures
        ({
            let (a, b) = (
                shared_place(g.cfg, row, piece),
                shared_place(g.cfg, row2, piece2),
            );
            &&& a + 16 <= b || b + 16 <= a || (row == row2 && piece == piece2)
            &&& row < g.cfg.tile_m ==> 0 <= a && a + 16 <= x_shared(g)
            &&& row < g.cfg.tile_n ==> x_shared(g) + a + 16 <= plan_of(g.cfg).lds_buf
        }),
{
    let c = g.cfg;
    let rb = c.row_bytes() as int;
    lemma_lds_x(g);
    lemma_row_bytes(c);
    assert(16 * g.pieces() <= rb);
    lemma_rows_apart(row, row2, rb);
    lemma_rows_apart(row2, row, rb);
    lemma_rows_apart(row, c.tile_m as int, rb);
    lemma_rows_apart(row, c.tile_n as int, rb);
    assert(0 <= row * rb) by (nonlinear_arith)
        requires
            0 <= row,
            0 <= rb,
    ;
    assert(0 <= c.tile_n * c.row_bytes()) by (nonlinear_arith)
        requires
            0 <= c.row_bytes(),
    ;
}

/// A later row begins where an earlier one has ended.
proof fn lemma_rows_apart(row: int, row2: int, rb: int)
    requires
        0 <= rb,
    ensures
        row < row2 ==> row * rb + rb <= row2 * rb,
{
    if row < row2 {
        assert(row * rb + rb <= row2 * rb) by (nonlinear_arith)
            requires
                row + 1 <= row2,
                0 <= rb,
        ;
    }
}

/// What a fragment is read from was put there in the same turn: half of a fragment of the left
/// input is eight elements of the row that the lane stands for, and half of one of the right
/// input eight elements of the row of its column.
#[verifier::spinoff_prover]
#[verifier::rlimit(60)]
pub proof fn fragments_are_rows_of_the_inputs(
    g: Gemm,
    c: Context,
    place: int,
    t: u32,
    block: int,
    col: int,
    step: int,
    half: int,
    done: int,
)
    requires
        g.fits(),
        g.even(),
        t < g.cfg.wg_size,
        c.p == plan_of(g.cfg),
        0 <= block < c.p.nrb,
        0 <= col < c.p.nct,
        0 <= step < c.p.sub_steps,
        0 <= half < 2,
    ensures
        ({
            let (row, wt_row) = (read_row(g.cfg, t, block), 16 * col + t as int % 16);
            let piece = 2 * step + half;
            let (u, i) = loader(g, row, piece);
            let (w, j) = loader(g, wt_row, piece);
            let first = g.part() * g.part_len() + done + 16 * step + 8 * half;
            let x_words = four_words(g, x_at(g, row, first));
            let wt_words = four_words(g, wt_at(g, wt_row, first));
            &&& 0 <= u < g.cfg.wg_size && 0 <= i < c.p.x_loads
            &&& 0 <= w < g.cfg.wg_size && 0 <= j < c.p.wt_loads
            &&& x_reads(g, c, place, t, block, step)[half] matches Event::SharedLoad { at, .. }
                && x_pieces(g, c, place, u as u32, done)[i] == (Event::SharedStore {
                at,
                words: x_words,
            })
            &&& wt_reads(g, c, place, t, step, c.p.nct as nat)[2 * col + half]
                matches Event::SharedLoad { at, .. } && wt_pieces(g, c, place, w as u32, done)[j]
                == (Event::SharedStore { at, words: wt_words })
        }),
{
    let cfg = g.cfg;
    lemma_plan_ok(g);
    lemma_shifts(cfg);
    lemma_waves(g, t);
    lemma_wave_rows(cfg, t as int / 32);
    let (row, wt_row) = (read_row(cfg, t, block), 16 * col + t as int % 16);
    let piece = 2 * step + half;
    assert(piece < g.pieces());
    assert(0 <= row < cfg.tile_m);
    assert(16 * c.p.nct == cfg.tile_n);
    every_piece_is_loaded_once(g, c.p.x_loads as int, row, piece, 0, 0);
    every_piece_is_loaded_once(g, c.p.wt_loads as int, wt_row, piece, 0, 0);
    assert((2 * col + half) / 2 == col && (2 * col + half) % 2 == half);
}

/// The thread that stores an output of the tile, the blocks of rows and of columns, and which
/// of the lane's rows it is.
pub open spec fn storer(g: Gemm, row: int, col: int) -> (int, int, int, int) {
    let wr = g.cfg.wave_rows() as int;
    (
        32 * (row / wr) + 16 * (row % 2) + col % 16,
        row % wr / 16,
        col / 16,
        row % 16 / 2,
    )
}

/// Every output of the tile is stored, and by one thread only.
#[verifier::spinoff_prover]
#[verifier::rlimit(60)]
pub proof fn every_output_is_stored_once(
    g: Gemm,
    row: int,
    col: int,
    t: u32,
    block: int,
    j: int,
    i: int,
)
    requires
        generable(g.cfg),
        g.even(),
        0 <= row < g.cfg.tile_m,
        0 <= col < g.cfg.tile_n,
        t < g.cfg.wg_size,
        0 <= block < plan_of(g.cfg).nrb,
        0 <= j < plan_of(g.cfg).nct,
        0 <= i < 8,
    ensures
        ({
            let (u, b, k, n) = storer(g, row, col);
            &&& 0 <= u < g.cfg.wg_size
            &&& 0 <= b < plan_of(g.cfg).nrb
            &&& 0 <= k < plan_of(g.cfg).nct
            &&& 0 <= n < 8
            &&& out_row(g, u as u32, b) + 2 * n == g.row0() + row
            &&& out_col(g, u as u32, k) == g.col0() + col
            &&& out_row(g, t, block) + 2 * i == g.row0() + row && out_col(g, t, j) == g.col0() + col
                ==> t == u && block == b && j == k && i == n
        }),
{
    let c = g.cfg;
    lemma_shifts(c);
    lemma_whole_waves(c);
    lemma_storer(c.wave_rows() as int, c.waves() as int, row, col, t as int, block, j, i);
}

/// Waves, blocks and lanes number the outputs.
#[verifier::spinoff_prover]
#[verifier::rlimit(60)]
proof fn lemma_storer(
    wr: int,
    waves: int,
    row: int,
    col: int,
    t: int,
    block: int,
    j: int,
    i: int,
)
    requires
        wr == 16 || wr == 32 || wr == 64,
        0 <= row < waves * wr,
        0 <= col,
        0 <= t,
        0 <= block < wr / 16,
        0 <= j,
        0 <= i < 8,
    ensures
        ({
            let u = 32 * (row / wr) + 16 * (row % 2) + col % 16;
            let (b, k, n) = (row % wr / 16, col / 16, row % 16 / 2);
            &&& 0 <= u < 32 * waves
            &&& 0 <= b < wr / 16
            &&& 0 <= n < 8
            &&& u / 32 * wr + 16 * b + u % 32 / 16 + 2 * n == row
            &&& 16 * k + u % 16 == col
            &&& t / 32 * wr + 16 * block + t % 32 / 16 + 2 * i == row && 16 * j + t % 16 == col
                ==> t == u && block == b && j == k && i == n
        }),
{
    let w = row / wr;
    assert(0 <= w < waves && row == w * wr + row % wr && 0 <= row % wr < wr) by (nonlinear_arith)
        requires
            w == row / wr,
            0 <= row < waves * wr,
            1 <= wr,
    ;
    let q = row % wr;
    assert(row % 16 == q % 16 && row % 2 == q % 2) by {
        if wr == 16 {
            assert(row == 16 * w + q);
        } else if wr == 32 {
            assert(row == 32 * w + q);
        } else {
            assert(row == 64 * w + q);
        }
    }
    let u = 32 * w + 16 * (q % 2) + col % 16;
    assert(u / 32 == w && u % 32 / 16 == q % 2 && u % 16 == col % 16);
    let (w2, half) = (t / 32, t % 32 / 16);
    let inner = 16 * block + half + 2 * i;
    lemma_lane_rows(q, block, half, i);
    if w2 * wr + inner == row && 16 * j + t % 16 == col {
        assert(0 <= inner < wr);
        vstd::arithmetic::mul::lemma_mul_is_commutative(w2, wr);
        vstd::arithmetic::div_mod::lemma_fundamental_div_mod_converse(row, wr, w2, inner);
        assert(w2 == w && inner == q);
        assert(t == 32 * w2 + 16 * half + t % 16);
        assert(t % 16 == col % 16 && j == col / 16);
    }
}

/// A lane has every other row of a block of sixteen.
proof fn lemma_lane_rows(q: int, block: int, half: int, i: int)
    requires
        0 <= q,
        0 <= block,
        0 <= half <= 1,
        0 <= i < 8,
    ensures
        16 * (q / 16) + q % 2 + 2 * (q % 16 / 2) == q,
        16 * block + half + 2 * i == q ==> block == q / 16 && half == q % 2 && i == q % 16 / 2,
{
}

/// The waves share the rows of a tile without a rest.
proof fn lemma_whole_waves(c: GemmConfig)
    requires
        generable(c),
    ensures
        c.waves() * c.wave_rows() == c.tile_m,
        1 <= c.waves() <= 8,
{
    lemma_plan_bounds(c);
    let w = c.waves();
    assert(w == 1 || w == 2 || w == 3 || w == 4 || w == 5 || w == 6 || w == 7 || w == 8);
}

} // verus!
