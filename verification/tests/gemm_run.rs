//! Runs matrix multiplication kernels on small inputs: all threads of a workgroup in step,
//! with the lanes of a matrix instruction laid out as on GFX11.
use t0_gpu::compile::CompileOptions;
use t0_gpu::gemm_gen::{
    EpilogueOp, GemmConfig, build_kernargs, build_kernargs_with_bias, compute_grid_auto, generate,
};
use t0_gpu::ir::{Op, Operand, SOperand, SReg, VReg, Width};

const X_AT: u64 = 0x1_ffff_f800;
const WT_AT: u64 = 0x3_ffff_fc00;
const Y_AT: u64 = 0x5_0000_1000;
const BIAS_AT: u64 = 0x7_0000_0000;

/// A piece of memory and where it begins.
struct Piece {
    at: u64,
    bytes: Vec<u8>,
}

struct Memory(Vec<Piece>);

impl Memory {
    fn place(&mut self, at: u64, len: usize) -> &mut [u8] {
        for p in self.0.iter_mut() {
            if p.at <= at && at + len as u64 <= p.at + p.bytes.len() as u64 {
                let from = (at - p.at) as usize;
                return &mut p.bytes[from..from + len];
            }
        }
        panic!("nothing at {:#x}", at);
    }

    fn word(&mut self, at: u64) -> u32 {
        u32::from_le_bytes(self.place(at, 4).try_into().unwrap())
    }
}

/// One workgroup.
struct Group<'a> {
    memory: &'a mut Memory,
    kernargs: &'a [u8],
    number: [u32; 2],
    /// Registers by thread.
    v: Vec<Vec<u32>>,
    /// Scalar registers by wave.
    s: Vec<Vec<u32>>,
    carry: Vec<bool>,
    scc: bool,
    shared: Vec<u8>,
}

fn half(word: u32, upper: bool) -> f32 {
    f32::from_bits(if upper { word & 0xffff_0000 } else { word << 16 })
}

impl Group<'_> {
    fn operand(&self, t: usize, o: &Operand) -> u32 {
        match o {
            Operand::VReg(v) => self.v[t][v.0 as usize],
            Operand::InlineInt(x) => *x as u32,
            Operand::InlineFloat(bits) => *bits,
            other => panic!("{:?}", other),
        }
    }

    fn scalar(&self, w: usize, o: &SOperand) -> u32 {
        match o {
            SOperand::SReg(s) => self.s[w][s.0 as usize],
            SOperand::InlineInt(x) => *x as u32,
            other => panic!("{:?}", other),
        }
    }

    fn each(&mut self, dst: VReg, f: impl Fn(&Self, usize) -> u32) {
        for t in 0..self.v.len() {
            self.v[t][dst.0 as usize] = f(self, t);
        }
    }

    fn each_wave(&mut self, dst: SReg, f: impl Fn(&Self, usize) -> u32) {
        for w in 0..self.s.len() {
            self.s[w][dst.0 as usize] = f(self, w);
        }
    }

    fn address(&self, t: usize, addr: VReg) -> u64 {
        let lo = self.v[t][addr.0 as usize] as u64;
        let hi = self.v[t][addr.0 as usize + 1] as u64;
        hi << 32 | lo
    }

    /// One operation that is not a jump.
    fn step(&mut self, op: &Op) {
        match op {
            Op::ScalarLoad { dst, offset, width, .. } => {
                let n = if matches!(width, Width::B64) { 2 } else { 1 };
                for i in 0..n {
                    let from = *offset as usize + 4 * i;
                    let bytes: [u8; 4] = self.kernargs[from..from + 4].try_into().unwrap();
                    self.each_wave(SReg(dst.0 + i as u32), |_, _| u32::from_le_bytes(bytes));
                }
            },
            Op::CaptureTgid { dst, axis } => {
                let number = self.number[*axis as usize];
                self.each_wave(*dst, |_, _| number);
            },
            Op::SMov { dst, src } => self.each_wave(*dst, |g, w| g.scalar(w, src)),
            Op::SAddU32 { dst, src0, src1 } => self.each_wave(*dst, |g, w| {
                g.s[w][src0.0 as usize].wrapping_add(g.scalar(w, src1))
            }),
            Op::SAndB32 { dst, src0, src1 } => {
                self.each_wave(*dst, |g, w| g.s[w][src0.0 as usize] & g.scalar(w, src1))
            },
            Op::SMulI32 { dst, src0, src1 } => self.each_wave(*dst, |g, w| {
                g.s[w][src0.0 as usize].wrapping_mul(g.s[w][src1.0 as usize])
            }),
            Op::SLshlB32 { dst, src, shift } => {
                self.each_wave(*dst, |g, w| g.s[w][src.0 as usize] << shift)
            },
            Op::SLshrB32 { dst, src, shift } => {
                self.each_wave(*dst, |g, w| g.s[w][src.0 as usize] >> shift)
            },
            Op::SCmpGeU32 { src0, src1 } => {
                self.scc = self.s[0][src0.0 as usize] >= self.s[0][src1.0 as usize];
            },
            Op::SCmpLtU32 { src0, src1 } => {
                self.scc = self.s[0][src0.0 as usize] < self.s[0][src1.0 as usize];
            },
            Op::SCmpEqU32 { src0, src1 } => {
                self.scc = self.s[0][src0.0 as usize] == self.scalar(0, src1);
            },
            Op::VReadfirstlane { dst, src } => {
                self.each_wave(*dst, |g, w| g.v[32 * w][src.0 as usize])
            },
            Op::VMov { dst, src } => self.each(*dst, |g, t| g.operand(t, src)),
            Op::VMovFromSgpr { dst, src } => {
                self.each(*dst, |g, t| g.s[t / 32][src.0 as usize])
            },
            Op::VAndB32 { dst, src0, src1 } => {
                self.each(*dst, |g, t| g.operand(t, src0) & g.operand(t, src1))
            },
            Op::VAddU32 { dst, src0, src1 } => {
                self.each(*dst, |g, t| g.operand(t, src0).wrapping_add(g.operand(t, src1)))
            },
            Op::VMulLoU32 { dst, src0, src1 } => self.each(*dst, |g, t| {
                g.v[t][src0.0 as usize].wrapping_mul(g.v[t][src1.0 as usize])
            }),
            Op::VLshlrevB32 { dst, shift, src } => {
                self.each(*dst, |g, t| g.v[t][src.0 as usize] << shift)
            },
            Op::VLshrrevB32 { dst, shift, src } => {
                self.each(*dst, |g, t| g.v[t][src.0 as usize] >> shift)
            },
            Op::VAddCo { dst, src0, src1 } => {
                for t in 0..self.v.len() {
                    let (sum, carry) =
                        self.v[t][src0.0 as usize].overflowing_add(self.v[t][src1.0 as usize]);
                    self.v[t][dst.0 as usize] = sum;
                    self.carry[t] = carry;
                }
            },
            Op::VAddCoCi { dst, src } => {
                self.each(*dst, |g, t| g.v[t][src.0 as usize] + g.carry[t] as u32)
            },
            Op::VAddF32 { dst, src0, src1 } => self.each(*dst, |g, t| {
                let x = f32::from_bits(g.operand(t, src0));
                (x + f32::from_bits(g.operand(t, src1))).to_bits()
            }),
            Op::VMaxF32 { dst, src0, src1 } => self.each(*dst, |g, t| {
                let x = f32::from_bits(g.operand(t, src0));
                x.max(f32::from_bits(g.operand(t, src1))).to_bits()
            }),
            Op::GlobalLoad { dst, addr, width, offset } => {
                let n = width.vreg_count() as usize;
                for t in 0..self.v.len() {
                    let at = self.address(t, *addr).wrapping_add_signed(*offset as i64);
                    for i in 0..n {
                        self.v[t][dst.0 as usize + i] = self.memory.word(at + 4 * i as u64);
                    }
                }
            },
            Op::GlobalStore { addr, src, width, offset } => {
                for t in 0..self.v.len() {
                    let at = self.address(t, *addr).wrapping_add_signed(*offset as i64);
                    for i in 0..width.vreg_count() as usize {
                        let word = self.v[t][src.0 as usize + i];
                        let place = self.memory.place(at + 4 * i as u64, 4);
                        place.copy_from_slice(&word.to_le_bytes());
                    }
                }
            },
            Op::DsStoreB32 { vaddr, src, offset } => {
                for t in 0..self.v.len() {
                    let at = self.v[t][vaddr.0 as usize] as usize + *offset as usize;
                    let word = self.v[t][src.0 as usize];
                    self.shared[at..at + 4].copy_from_slice(&word.to_le_bytes());
                }
            },
            Op::DsLoadB32 { dst, vaddr, offset } => {
                for t in 0..self.v.len() {
                    let at = self.v[t][vaddr.0 as usize] as usize + *offset as usize;
                    let bytes: [u8; 4] = self.shared[at..at + 4].try_into().unwrap();
                    self.v[t][dst.0 as usize] = u32::from_le_bytes(bytes);
                }
            },
            Op::DsStoreB128 { vaddr, src, offset } => {
                for t in 0..self.v.len() {
                    let at = self.v[t][vaddr.0 as usize] as usize + *offset as usize;
                    for i in 0..4 {
                        let word = self.v[t][src.0 as usize + i];
                        self.shared[at + 4 * i..at + 4 * i + 4]
                            .copy_from_slice(&word.to_le_bytes());
                    }
                }
            },
            Op::DsLoadB128 { dst, vaddr, offset } => {
                for t in 0..self.v.len() {
                    let at = self.v[t][vaddr.0 as usize] as usize + *offset as usize;
                    for i in 0..4 {
                        let from = at + 4 * i;
                        let bytes: [u8; 4] = self.shared[from..from + 4].try_into().unwrap();
                        self.v[t][dst.0 as usize + i] = u32::from_le_bytes(bytes);
                    }
                }
            },
            Op::Wmma { dst, a, b, c, .. } => {
                for w in 0..self.s.len() {
                    self.multiply(32 * w, *dst, *a, *b, *c);
                }
            },
            Op::WaitVmcnt(_) | Op::WaitLgkmcnt(_) | Op::WaitVscnt(_) | Op::SBarrier => {},
            Op::Label(_) => {},
            other => panic!("{:?}", other),
        }
    }

    /// A matrix instruction of the wave that begins with a thread: lane `l` holds row `l % 16`
    /// of one factor and column `l % 16` of the other, and of that column of the sum every
    /// other row.
    fn multiply(&mut self, first: usize, dst: VReg, a: VReg, b: VReg, c: VReg) {
        let k = |v: &[u32], reg: VReg, i: usize| half(v[reg.0 as usize + i / 2], i % 2 == 1);
        let mut sums = Vec::new();
        for lane in 0..32 {
            for i in 0..8 {
                let row = 2 * i + lane / 16;
                let left = &self.v[first + row];
                let right = &self.v[first + lane % 16];
                let old = f32::from_bits(self.v[first + lane][c.0 as usize + i]);
                sums.push((0..16).fold(old, |sum, j| sum + k(left, a, j) * k(right, b, j)));
            }
        }
        for lane in 0..32 {
            for i in 0..8 {
                self.v[first + lane][dst.0 as usize + i] = sums[8 * lane + i].to_bits();
            }
        }
    }
}

/// Small whole numbers, so that sums are exact.
fn number(i: usize) -> f32 {
    ((i * 7 + 3) % 11) as f32 - 5.0
}

fn halves(n: usize, skip: usize) -> Vec<u8> {
    (0..n).flat_map(|i| ((number(i + skip).to_bits() >> 16) as u16).to_le_bytes()).collect()
}

/// Runs the kernel of a configuration on all workgroups and compares with the plain product.
fn check_product(cfg: &GemmConfig, m: usize, n: usize, k: usize) {
    let kernel = generate(cfg);
    check_ops(cfg, [m, n, k], Y_AT, kernel.ops(), kernel.lds_size());
}

/// Runs operations of a configuration with the output at a place.
fn check_ops(cfg: &GemmConfig, [m, n, k]: [usize; 3], y_at: u64, ops: &[Op], lds_size: u32) {
    let parts = cfg.split_k.unwrap_or(1) as usize;
    let bias = cfg.epilogue != EpilogueOp::StoreF32;
    let mut memory = Memory(vec![
        Piece { at: X_AT, bytes: halves(m * k, 0) },
        Piece { at: WT_AT, bytes: halves(n * k, 5) },
        Piece { at: y_at, bytes: vec![0xff; parts * m * n * 4] },
        Piece { at: BIAS_AT, bytes: (0..n).flat_map(|i| number(i).to_le_bytes()).collect() },
    ]);
    let (ku, nu, mu) = (k as u32, n as u32, m as u32);
    let kernargs = if bias {
        build_kernargs_with_bias(X_AT, WT_AT, y_at, ku, nu, mu, cfg, BIAS_AT).to_vec()
    } else {
        build_kernargs(X_AT, WT_AT, y_at, ku, nu, mu, cfg).to_vec()
    };
    let (threads_x, groups_y) = compute_grid_auto(cfg, mu, nu);
    let (v, s) = (4000, 200);
    for gx in 0..threads_x / cfg.wg_size {
        for gy in 0..groups_y {
            let threads = cfg.wg_size as usize;
            let mut group = Group {
                memory: &mut memory,
                kernargs: &kernargs,
                number: [gx, gy],
                v: (0..threads).map(|t| [vec![t as u32], vec![0; v]].concat()).collect(),
                s: vec![vec![0; s]; threads / 32],
                carry: vec![false; threads],
                scc: false,
                shared: vec![0; lds_size as usize],
            };
            let mut pc = 0;
            while !matches!(ops[pc], Op::Endpgm) {
                pc = match &ops[pc] {
                    Op::BranchScc1(to) if group.scc => ops
                        .iter()
                        .position(|op| matches!(op, Op::Label(name) if name == to))
                        .unwrap(),
                    Op::BranchScc1(_) => pc + 1,
                    op => {
                        group.step(op);
                        pc + 1
                    },
                };
            }
        }
    }
    for row in 0..m {
        for col in 0..n {
            let product: f32 =
                (0..k).map(|i| number(row * k + i) * number(col * k + i + 5)).sum();
            let want = match cfg.epilogue {
                EpilogueOp::StoreF32 => product,
                EpilogueOp::BiasAddStoreF32 => product + number(col),
                EpilogueOp::BiasAddReluStoreF32 => (product + number(col)).max(0.0),
            };
            let mut got = 0.0;
            for part in 0..parts {
                let at = y_at + 4 * (part * m * n + row * n + col) as u64;
                got += f32::from_bits(memory.word(at));
            }
            assert_eq!(got, want, "{} at {}, {}", cfg.name(), row, col);
        }
    }
}

#[test]
fn products_of_small_tiles() {
    check_product(&GemmConfig::tile_16x64_k16(), 32, 128, 48);
    check_product(&GemmConfig::tile_32x64_k16(), 64, 128, 64);
}

#[test]
fn products_of_one_step_along_the_inner_dimension() {
    check_product(&GemmConfig::tile_32x64_k16(), 32, 64, 16);
    check_product(&GemmConfig::tile_32x64_k16(), 32, 64, 32);
}

#[test]
fn products_of_large_tiles() {
    check_product(&GemmConfig::tile_64x64_k16(), 64, 64, 48);
    check_product(&GemmConfig::tile_128x64_k16(), 128, 64, 32);
    check_product(&GemmConfig::tile_32x128_k16(), 32, 128, 32);
}

#[test]
fn products_in_parts() {
    let cfg = GemmConfig { split_k: Some(4), ..GemmConfig::tile_32x64_k16() };
    check_product(&cfg, 64, 64, 128);
}

#[test]
fn products_with_axes_exchanged() {
    let cfg = GemmConfig { swap_grid: true, ..GemmConfig::tile_32x64_k16() };
    check_product(&cfg, 96, 64, 32);
}

#[test]
fn products_with_bias() {
    let cfg = GemmConfig::tile_32x64_k16();
    check_product(&GemmConfig { epilogue: EpilogueOp::BiasAddStoreF32, ..cfg }, 32, 64, 32);
    let cfg = GemmConfig::tile_32x64_k16();
    check_product(&GemmConfig { epilogue: EpilogueOp::BiasAddReluStoreF32, ..cfg }, 32, 64, 32);
}

#[test]
fn products_of_every_generable_configuration() {
    for cfg in t0_gpu::gemm_gen::sweep_configs() {
        if cfg.is_generable() && cfg.n_col_passes == 1 {
            let (m, n, k) = (cfg.tile_m as usize, cfg.tile_n as usize, cfg.tile_k as usize);
            let parts = cfg.split_k.unwrap_or(1) as usize;
            check_product(&cfg, m, n, 2 * k * parts);
        }
    }
}

#[test]
fn outputs_may_cross_the_lower_half_of_an_address() {
    let cfg = GemmConfig::tile_32x64_k16();
    let kernel = generate(&cfg);
    for y_at in [0x5_ffff_ffe0, 0x5_ffff_ff40, 0x5_ffff_f000] {
        check_ops(&cfg, [32, 64, 16], y_at, kernel.ops(), kernel.lds_size());
    }
}

#[test]
fn products_of_the_largest_tiles() {
    let cfg = GemmConfig::tile_128x128_k16();
    assert!(cfg.is_feasible() && cfg.is_generable());
    check_product(&cfg, 128, 128, 32);
}

#[test]
fn passes_and_spilling_keep_products() {
    for cfg in [
        GemmConfig::tile_16x64_k16(),
        GemmConfig::tile_32x64_k32(),
        GemmConfig { epilogue: EpilogueOp::BiasAddReluStoreF32, ..GemmConfig::tile_64x64_k16() },
        GemmConfig::tile_128x128_k16(),
    ] {
        let mut kernel = generate(&cfg);
        let shape = [cfg.tile_m as usize, cfg.tile_n as usize, 3 * cfg.tile_k as usize];
        for skip in [false, true] {
            kernel.set_skip_optimize(skip);
            match kernel.lower(&CompileOptions::default()) {
                Ok(lowered) => {
                    assert!(lowered.alloc.total_vgprs <= 254);
                    assert!(lowered.lds_size >= kernel.lds_size());
                    check_ops(&cfg, shape, Y_AT, &lowered.ops, lowered.lds_size);
                },
                Err(e) => panic!("{}", e.to_text(&kernel.name)),
            }
        }
    }
}
