//! Runs kernels on small inputs, one workgroup at a time and all threads in step.
use t0_gpu::argmax_kernels::{build_argmax, build_argmax_large, build_argmax_reduce};
use t0_gpu::attention_kernels::{
    build_attn_gather, build_attn_scale, build_attn_scale_causal, build_attn_scatter,
    build_attn_transpose,
};
use t0_gpu::block_dsl::{BNode, BVal, BlockKernel};
use t0_gpu::elementwise_kernels::{
    build_bf16_store_test, build_f32_to_bf16_b32, build_f32_to_bf16_padded,
    build_f32_to_bf16_transpose_padded, build_memcpy, build_memcpy_kv_x4, build_memcpy_kv_x16,
    build_memcpy_x4, build_residual_add, build_scale,
};
use t0_gpu::embedding_kernels::{
    build_embedding_backward, build_embedding_forward, build_embedding_gather_bf16,
};
use t0_gpu::flash_attn_kernels::build_flash_attn_decode;
use t0_gpu::rmsnorm_kernels::{
    build_rmsnorm_backward, build_rmsnorm_forward, build_rmsnorm_residual_add,
};
use t0_gpu::rope_kernels::{build_rope_backward, build_rope_forward};

/// An argument of a launch.
enum Arg {
    Floats(Vec<f32>),
    Words(Vec<u32>),
    Halves(Vec<u16>),
    U32(u32),
    F32(f32),
}

impl Arg {
    fn bits(&self) -> u32 {
        match self {
            Arg::U32(n) => *n,
            Arg::F32(x) => x.to_bits(),
            _ => panic!("not a number"),
        }
    }

    fn word(&self, at: usize) -> u32 {
        match self {
            Arg::Floats(v) => v[at].to_bits(),
            Arg::Words(v) => v[at],
            _ => panic!("not words"),
        }
    }

    fn set_word(&mut self, at: usize, word: u32) {
        match self {
            Arg::Floats(v) => v[at] = f32::from_bits(word),
            Arg::Words(v) => v[at] = word,
            _ => panic!("not words"),
        }
    }

    fn floats(&self) -> &[f32] {
        match self {
            Arg::Floats(v) => v,
            _ => panic!("not floats"),
        }
    }

    fn halves(&self) -> &[u16] {
        match self {
            Arg::Halves(v) => v,
            _ => panic!("not halves"),
        }
    }
}

/// One workgroup: the kernel, its arguments, the values of its nodes by thread, and the
/// local data share.
struct Group<'a> {
    kernel: &'a BlockKernel,
    args: &'a mut Vec<Arg>,
    values: Vec<Vec<u32>>,
    shared: Vec<u32>,
    /// What accumulating loops carry, by the node where they begin and by thread.
    carried: Vec<Vec<u32>>,
    number: u32,
}

impl Group<'_> {
    fn threads(&self) -> usize {
        self.kernel.get_block_size() as usize
    }

    fn word(&self, v: BVal, t: usize) -> u32 {
        self.values[v.0][t]
    }

    fn float(&self, v: BVal, t: usize) -> f32 {
        f32::from_bits(self.word(v, t))
    }

    /// The places of a masked access, by thread.
    fn places(&self, offsets: BVal, mask: BVal) -> Vec<Option<usize>> {
        let place = |t| (self.word(mask, t) != 0).then_some(self.word(offsets, t) as usize);
        (0..self.threads()).map(place).collect()
    }

    fn each(&self, f: impl Fn(usize) -> u32) -> Vec<u32> {
        (0..self.threads()).map(f).collect()
    }

    fn unary(&self, a: BVal, f: impl Fn(f32) -> f32) -> Vec<u32> {
        self.each(|t| f(self.float(a, t)).to_bits())
    }

    fn binary(&self, a: BVal, b: BVal, f: impl Fn(f32, f32) -> f32) -> Vec<u32> {
        self.each(|t| f(self.float(a, t), self.float(b, t)).to_bits())
    }

    fn on_words(&self, a: BVal, b: BVal, f: impl Fn(u32, u32) -> u32) -> Vec<u32> {
        self.each(|t| f(self.word(a, t), self.word(b, t)))
    }

    fn reduced(&self, a: BVal, f: impl Fn(f32, f32) -> f32) -> Vec<u32> {
        let all = (1..self.threads()).fold(self.float(a, 0), |x, t| f(x, self.float(a, t)));
        self.each(|_| all.to_bits())
    }

    /// Runs the nodes from `from` to `to`, a loop as often as it says.
    fn run(&mut self, from: usize, to: usize) {
        let mut i = from;
        while i < to {
            let kernel = self.kernel;
            let (start, end, step) = match &kernel.get_nodes()[i] {
                BNode::ForBegin { start, end, step } => (*start, *end, *step),
                BNode::ForAccBegin { start, end, step, init_acc } => {
                    self.carried[i] = self.values[init_acc.0].clone();
                    (*start, *end, *step)
                },
                _ => {
                    self.values[i] = self.step(i);
                    i += 1;
                    continue;
                },
            };
            let ends = |n: &BNode| match n {
                BNode::ForEnd { begin_node } => *begin_node == i,
                BNode::ForAccEnd { begin_node, .. } => *begin_node == i,
                _ => false,
            };
            let last = kernel.get_nodes().iter().position(ends).unwrap();
            let mut turn = self.word(start, 0);
            while turn < self.word(end, 0) {
                self.values[i] = self.each(|_| turn);
                self.run(i + 1, last);
                if let BNode::ForAccEnd { new_acc, .. } = &kernel.get_nodes()[last] {
                    self.carried[i] = self.values[new_acc.0].clone();
                }
                turn += step;
            }
            for (j, n) in kernel.get_nodes().iter().enumerate() {
                if matches!(n, BNode::ForAccPhi { begin_node } if *begin_node == i) {
                    self.values[j] = self.carried[i].clone();
                }
            }
            i = last + 1;
        }
    }

    /// The values of a node; stores take effect.
    fn step(&mut self, i: usize) -> Vec<u32> {
        let kernel = self.kernel;
        let block_x = kernel.get_block_size_2d()[0];
        match &kernel.get_nodes()[i] {
            BNode::ArgPtr(_) => self.each(|_| i as u32),
            BNode::ArgU32(_) | BNode::ArgF32(_) => self.each(|_| self.args[i].bits()),
            BNode::ProgramId(0) => self.each(|_| self.number),
            BNode::ThreadId => self.each(|t| t as u32 % block_x),
            BNode::Arange { start, .. } => self.each(|t| start + t as u32),
            BNode::ConstU32(x) | BNode::ConstF32(x) => self.each(|_| *x),
            BNode::AddU32(a, b) => self.on_words(*a, *b, u32::wrapping_add),
            BNode::SubU32(a, b) => self.on_words(*a, *b, u32::wrapping_sub),
            BNode::MulU32(a, b) => self.on_words(*a, *b, u32::wrapping_mul),
            BNode::ShrConstU32(a, n) => self.each(|t| self.word(*a, t) >> n),
            BNode::ShlConstU32(a, n) => self.each(|t| self.word(*a, t) << n),
            BNode::AndConstU32(a, x) => self.each(|t| self.word(*a, t) & x),
            BNode::LtU32(a, b) => self.on_words(*a, *b, |x, y| (x < y) as u32),
            BNode::GeU32(a, b) => self.on_words(*a, *b, |x, y| (x >= y) as u32),
            BNode::AndBool(a, b) => self.on_words(*a, *b, |x, y| (x != 0 && y != 0) as u32),
            BNode::CmpLtF32(a, b) => self.each(|t| (self.float(*a, t) < self.float(*b, t)) as u32),
            BNode::CmpGtF32(a, b) => self.each(|t| (self.float(*a, t) > self.float(*b, t)) as u32),
            BNode::CmpEqF32(a, b) => {
                self.each(|t| (self.float(*a, t) == self.float(*b, t)) as u32)
            },
            BNode::Select { mask, true_val, false_val } => self.each(|t| {
                let from = if self.word(*mask, t) != 0 { true_val } else { false_val };
                self.word(*from, t)
            }),
            BNode::AddF32(a, b) => self.binary(*a, *b, |x, y| x + y),
            BNode::SubF32(a, b) => self.binary(*a, *b, |x, y| x - y),
            BNode::MulF32(a, b) => self.binary(*a, *b, |x, y| x * y),
            BNode::DivF32(a, b) => self.binary(*a, *b, |x, y| x / y),
            BNode::MaxF32(a, b) => self.binary(*a, *b, f32::max),
            BNode::MinF32(a, b) => self.binary(*a, *b, f32::min),
            BNode::FmaF32(a, b, c) => self.each(|t| {
                self.float(*a, t).mul_add(self.float(*b, t), self.float(*c, t)).to_bits()
            }),
            BNode::ExpF32(a) => self.unary(*a, f32::exp2),
            BNode::Log2F32(a) => self.unary(*a, f32::log2),
            BNode::SqrtF32(a) => self.unary(*a, f32::sqrt),
            BNode::RcpF32(a) => self.unary(*a, f32::recip),
            BNode::RsqrtF32(a) => self.unary(*a, |x| x.sqrt().recip()),
            BNode::AbsF32(a) => self.unary(*a, f32::abs),
            BNode::NegF32(a) => self.unary(*a, |x| -x),
            BNode::SinF32(a) => self.unary(*a, f32::sin),
            BNode::CosF32(a) => self.unary(*a, f32::cos),
            BNode::CvtF32U32(a) => self.each(|t| (self.word(*a, t) as f32).to_bits()),
            BNode::CvtU32F32(a) => self.each(|t| self.float(*a, t) as u32),
            BNode::WgReduceAddF32(a) => self.reduced(*a, |x, y| x + y),
            BNode::WgReduceMaxF32(a) => self.reduced(*a, f32::max),
            BNode::WgReduceMinF32(a) => self.reduced(*a, f32::min),
            BNode::Load { ptr, offsets, mask } | BNode::LoadU32 { ptr, offsets, mask } => {
                let places = self.places(*offsets, *mask);
                self.each(|t| places[t].map_or(0, |at| self.args[ptr.0].word(at)))
            },
            BNode::LoadBf16 { ptr, offsets, mask } => {
                let places = self.places(*offsets, *mask);
                self.each(|t| places[t].map_or(0, |at| (self.args[ptr.0].halves()[at] as u32) << 16))
            },
            BNode::Store { ptr, offsets, val, mask } => {
                for (t, at) in self.places(*offsets, *mask).into_iter().enumerate() {
                    if let Some(at) = at {
                        let word = self.word(*val, t);
                        self.args[ptr.0].set_word(at, word);
                    }
                }
                Vec::new()
            },
            BNode::StoreBf16 { ptr, offsets, val, mask } => {
                for (t, at) in self.places(*offsets, *mask).into_iter().enumerate() {
                    if let Some(at) = at {
                        let half = (self.word(*val, t) >> 16) as u16;
                        match &mut self.args[ptr.0] {
                            Arg::Halves(v) => v[at] = half,
                            _ => panic!("not halves"),
                        }
                    }
                }
                Vec::new()
            },
            BNode::AtomicAddF32 { ptr, offsets, val, mask } => {
                for (t, at) in self.places(*offsets, *mask).into_iter().enumerate() {
                    if let Some(at) = at {
                        let sum = f32::from_bits(self.args[ptr.0].word(at)) + self.float(*val, t);
                        self.args[ptr.0].set_word(at, sum.to_bits());
                    }
                }
                Vec::new()
            },
            BNode::LdsAlloc { size_bytes } => {
                self.shared = vec![0; *size_bytes as usize / 4];
                Vec::new()
            },
            BNode::LdsLoad { offset, .. } => {
                self.each(|t| self.shared[self.word(*offset, t) as usize])
            },
            BNode::LdsStore { offset, val, .. } => {
                for t in 0..self.threads() {
                    let at = self.word(*offset, t) as usize;
                    self.shared[at] = self.word(*val, t);
                }
                Vec::new()
            },
            BNode::ForAccPhi { begin_node } | BNode::ForAccResult { begin_node } => {
                self.carried[*begin_node].clone()
            },
            BNode::Barrier => Vec::new(),
            other => panic!("{:?}", other),
        }
    }
}

/// Launches a kernel on `groups` workgroups and gives its arguments back.
fn launch(kernel: &BlockKernel, groups: u32, mut args: Vec<Arg>) -> Vec<Arg> {
    let n = kernel.get_nodes().len();
    for number in 0..groups {
        let mut group = Group {
            kernel,
            args: &mut args,
            values: vec![Vec::new(); n],
            shared: Vec::new(),
            carried: vec![Vec::new(); n],
            number,
        };
        group.run(0, n);
    }
    args
}

fn counting(n: usize) -> Vec<f32> {
    (0..n).map(|i| i as f32 + 1.0).collect()
}

/// Some numbers between -1 and 1.
fn mixed(n: usize) -> Vec<f32> {
    (0..n).map(|i| ((i * 37 + 11) % 101) as f32 / 50.0 - 1.0).collect()
}

fn assert_close(got: &[f32], want: &[f32]) {
    assert_eq!(got.len(), want.len());
    for (i, (x, y)) in got.iter().zip(want).enumerate() {
        assert!((x - y).abs() < 1e-4, "at {}: {} and {}", i, x, y);
    }
}

#[test]
fn copies_are_equal() {
    let input = counting(300);
    let zeros = vec![0.0; 300];
    let args = vec![Arg::Floats(input.clone()), Arg::Floats(zeros.clone()), Arg::U32(300)];
    assert_eq!(launch(&build_memcpy(), 2, args)[1].floats(), input);
    let args = vec![Arg::Floats(input.clone()), Arg::Floats(zeros), Arg::U32(75)];
    assert_eq!(launch(&build_memcpy_x4(), 1, args)[1].floats(), input);
}

#[test]
fn keys_and_values_are_copied_together() {
    let keys = counting(1000);
    let values = mixed(1000);
    for (kernel, groups, n) in [(build_memcpy_kv_x4(), 1, 250), (build_memcpy_kv_x16(), 1, 1000)] {
        let args = vec![
            Arg::Floats(keys.clone()),
            Arg::Floats(values.clone()),
            Arg::Floats(vec![0.0; 1000]),
            Arg::Floats(vec![0.0; 1000]),
            Arg::U32(n),
        ];
        let out = launch(&kernel, groups, args);
        assert_eq!(out[2].floats(), keys);
        assert_eq!(out[3].floats(), values);
    }
}

#[test]
fn sums_and_multiples_are_taken() {
    let args = vec![Arg::Floats(counting(4)), Arg::Floats(vec![10.0; 4]), Arg::U32(3)];
    assert_eq!(launch(&build_residual_add(), 1, args)[1].floats(), [11.0, 12.0, 13.0, 10.0]);
    let args =
        vec![Arg::Floats(counting(4)), Arg::Floats(vec![0.0; 4]), Arg::U32(3), Arg::F32(0.5)];
    assert_eq!(launch(&build_scale(), 1, args)[1].floats(), [0.5, 1.0, 1.5, 0.0]);
}

#[test]
fn upper_halves_are_stored() {
    let input = [1.0f32, -2.5, 3.140625];
    let halves: Vec<u16> = input.iter().map(|x| (x.to_bits() >> 16) as u16).collect();
    let args = vec![Arg::Floats(input.to_vec()), Arg::Halves(vec![0; 3]), Arg::U32(3)];
    assert_eq!(launch(&build_bf16_store_test(), 1, args)[1].halves(), halves);
}

#[test]
fn upper_halves_are_stored_as_words() {
    let input = [1.0f32, -2.5, 3.140625];
    let args = vec![Arg::Floats(input.to_vec()), Arg::Words(vec![0; 3]), Arg::U32(3)];
    let out = launch(&build_f32_to_bf16_b32(), 1, args);
    for (i, x) in input.iter().enumerate() {
        assert_eq!(out[1].word(i), x.to_bits() >> 16);
    }
}

#[test]
fn rows_are_padded_and_transposed() {
    // Two rows of 300 numbers.
    let input = mixed(600);
    let half = |x: f32| (x.to_bits() >> 16) as u16;
    let args = |pad, len| {
        vec![
            Arg::Floats(input.clone()),
            Arg::Halves(vec![0; len]),
            Arg::U32(300),
            Arg::U32(pad),
        ]
    };
    let padded = launch(&build_f32_to_bf16_padded(), 2, args(304, 608));
    let turned = launch(&build_f32_to_bf16_transpose_padded(), 2, args(16, 4800));
    for row in 0..2 {
        for col in 0..300 {
            let want = half(input[row * 300 + col]);
            assert_eq!(padded[1].halves()[row * 304 + col], want);
            assert_eq!(turned[1].halves()[col * 16 + row], want);
        }
    }
    assert_eq!(padded[1].halves()[300..304], [0; 4]);
}

#[test]
fn heads_are_gathered_and_scattered() {
    // Three rows of two heads of four numbers.
    let rows = counting(24);
    let numbers = |h| vec![Arg::U32(4), Arg::U32(8), Arg::U32(h), Arg::U32(3)];
    let mut args = vec![Arg::Floats(rows.clone()), Arg::Floats(vec![0.0; 12])];
    args.extend(numbers(1));
    let head = launch(&build_attn_gather(), 3, args)[1].floats().to_vec();
    assert_eq!(head, [5.0, 6.0, 7.0, 8.0, 13.0, 14.0, 15.0, 16.0, 21.0, 22.0, 23.0, 24.0]);
    let mut args = vec![Arg::Floats(head), Arg::Floats(vec![0.0; 24])];
    args.extend(numbers(1));
    let back = launch(&build_attn_scatter(), 3, args);
    for (i, x) in back[1].floats().iter().enumerate() {
        assert_eq!(*x, if i % 8 >= 4 { rows[i] } else { 0.0 });
    }
}

#[test]
fn rows_become_columns() {
    let args = vec![
        Arg::Floats(counting(6)),
        Arg::Floats(vec![0.0; 6]),
        Arg::U32(3),
        Arg::U32(2),
    ];
    let out = launch(&build_attn_transpose(), 2, args);
    assert_eq!(out[1].floats(), [1.0, 4.0, 2.0, 5.0, 3.0, 6.0]);
}

#[test]
fn scores_are_scaled_and_later_ones_hidden() {
    let args = |scale| {
        vec![Arg::Floats(counting(9)), Arg::Floats(vec![0.0; 9]), Arg::U32(3), Arg::F32(scale)]
    };
    let scaled: Vec<f32> = counting(9).iter().map(|x| x * 0.5).collect();
    assert_eq!(launch(&build_attn_scale(), 3, args(0.5))[1].floats(), scaled);
    let out = launch(&build_attn_scale_causal(), 3, args(0.5));
    for (i, x) in out[1].floats().iter().enumerate() {
        assert_eq!(*x, if i % 3 > i / 3 { f32::NEG_INFINITY } else { scaled[i] });
    }
}

#[test]
fn tokens_are_looked_up() {
    let table = counting(12);
    let args = vec![
        Arg::Floats(table),
        Arg::Words(vec![2, 0]),
        Arg::Floats(vec![0.0; 6]),
        Arg::U32(3),
    ];
    let out = launch(&build_embedding_forward(), 2, args);
    assert_eq!(out[2].floats(), [7.0, 8.0, 9.0, 1.0, 2.0, 3.0]);
}

#[test]
fn gradients_of_equal_tokens_add_up() {
    let args = vec![
        Arg::Floats(vec![0.0; 6]),
        Arg::Words(vec![1, 1]),
        Arg::Floats(vec![1.0, 2.0, 10.0, 20.0]),
        Arg::U32(2),
    ];
    let out = launch(&build_embedding_backward(), 2, args);
    assert_eq!(out[0].floats(), [0.0, 0.0, 11.0, 22.0, 0.0, 0.0]);
}

#[test]
fn half_rows_are_widened() {
    let halves = vec![0x3f80, 0x4000, 0xc000, 0x4040];
    let args =
        vec![Arg::Halves(halves), Arg::Floats(vec![0.0; 2]), Arg::U32(1), Arg::U32(2)];
    let out = launch(&build_embedding_gather_bf16(), 1, args);
    assert_eq!(out[1].floats(), [-2.0, 3.0]);
}

#[test]
fn the_first_largest_is_found() {
    let rows = vec![1.0, 7.0, 3.0, 7.0, -1.0, -5.0, -1.0, -2.0];
    let args = vec![Arg::Floats(rows), Arg::Floats(vec![0.0; 2]), Arg::U32(4)];
    assert_eq!(launch(&build_argmax(), 2, args)[1].floats(), [1.0, 0.0]);
}

#[test]
fn the_largest_of_long_rows_is_found() {
    let mut row = mixed(5000);
    row[3333] = 2.0;
    let args = vec![Arg::Floats(row), Arg::Floats(vec![0.0]), Arg::U32(5000)];
    assert_eq!(launch(&build_argmax_large(), 1, args)[1].floats(), [3333.0]);
}

#[test]
fn the_largest_of_each_chunk_is_found() {
    let mut row = mixed(600);
    row[200] = 4.0;
    row[300] = 5.0;
    row[599] = 6.0;
    let args = vec![
        Arg::Floats(row),
        Arg::Floats(vec![0.0; 3]),
        Arg::Floats(vec![0.0; 3]),
        Arg::U32(600),
    ];
    let out = launch(&build_argmax_reduce(), 3, args);
    assert_eq!(out[1].floats(), [4.0, 5.0, 6.0]);
    assert_eq!(out[2].floats(), [200.0, 300.0, 599.0]);
}

fn inverse_rms(row: &[f32], eps: f32) -> f32 {
    let mean = row.iter().map(|x| x * x).sum::<f32>() / row.len() as f32;
    1.0 / (mean + eps).sqrt()
}

#[test]
fn rows_are_normalized() {
    let x = mixed(80);
    let weight = counting(40);
    let args = vec![
        Arg::Floats(x.clone()),
        Arg::Floats(weight.clone()),
        Arg::Floats(vec![0.0; 80]),
        Arg::U32(40),
        Arg::F32(1e-5),
    ];
    let out = launch(&build_rmsnorm_forward(), 2, args);
    let want: Vec<f32> = (0..80)
        .map(|i| x[i] * inverse_rms(&x[i / 40 * 40..][..40], 1e-5) * weight[i % 40])
        .collect();
    assert_close(out[2].floats(), &want);
}

#[test]
fn gradients_of_normalized_rows() {
    let dy = mixed(40);
    let x: Vec<f32> = mixed(50)[10..].to_vec();
    let weight: Vec<f32> = (0..40).map(|i| 0.5 + i as f32 / 40.0).collect();
    let args = vec![
        Arg::Floats(dy.clone()),
        Arg::Floats(x.clone()),
        Arg::Floats(weight.clone()),
        Arg::Floats(vec![0.0; 40]),
        Arg::U32(40),
        Arg::F32(1e-5),
    ];
    let out = launch(&build_rmsnorm_backward(), 1, args);
    let rstd = inverse_rms(&x, 1e-5);
    let hat: Vec<f32> = (0..40).map(|i| dy[i] * weight[i]).collect();
    let dot = (0..40).map(|i| x[i] * hat[i]).sum::<f32>() / 40.0;
    let want: Vec<f32> = (0..40).map(|i| rstd * (hat[i] - x[i] * rstd * rstd * dot)).collect();
    assert_close(out[3].floats(), &want);
}

#[test]
fn normalized_rows_are_added() {
    let x = mixed(40);
    let weight = counting(40);
    let before = counting(40);
    let args = vec![
        Arg::Floats(x.clone()),
        Arg::Floats(weight.clone()),
        Arg::Floats(before),
        Arg::Floats(vec![0.0]),
        Arg::U32(40),
        Arg::F32(1e-5),
    ];
    let out = launch(&build_rmsnorm_residual_add(), 1, args);
    let rstd = inverse_rms(&x, 1e-5);
    let want: Vec<f32> = (0..40).map(|i| x[i] + x[i] * rstd * weight[i]).collect();
    assert_close(out[2].floats(), &want);
    assert_close(out[3].floats(), &[rstd]);
}

/// Rotates the pairs of each row by the angles of its position.
fn rotated(x: &[f32], width: usize, first: usize, theta: f32, sign: f32) -> Vec<f32> {
    let mut out = x.to_vec();
    for row in 0..x.len() / width {
        for i in 0..width / 2 {
            let freq = theta.powf(-2.0 * i as f32 / width as f32);
            let angle = (first + row) as f32 * freq;
            let (sin, cos) = (sign * angle.sin(), angle.cos());
            let (a, b) = (row * width + i, row * width + width / 2 + i);
            out[a] = x[a] * cos - x[b] * sin;
            out[b] = x[a] * sin + x[b] * cos;
        }
    }
    out
}

#[test]
fn pairs_are_rotated_and_rotated_back() {
    let x = mixed(24);
    let args = |x: &[f32]| {
        vec![
            Arg::Floats(x.to_vec()),
            Arg::Floats(vec![0.0; 24]),
            Arg::U32(8),
            Arg::U32(3),
            Arg::U32(5),
            Arg::F32(100.0),
        ]
    };
    let out = launch(&build_rope_forward(0), 3, args(&x))[1].floats().to_vec();
    assert_close(&out, &rotated(&x, 8, 5, 100.0, 1.0));
    assert_close(launch(&build_rope_backward(), 3, args(&out))[1].floats(), &x);
}

#[test]
fn heads_of_a_token_are_rotated_alike() {
    // Two tokens of two heads.
    let x = mixed(32);
    let args = vec![
        Arg::Floats(x.clone()),
        Arg::Floats(vec![0.0; 32]),
        Arg::U32(8),
        Arg::U32(0),
        Arg::U32(5),
        Arg::F32(100.0),
    ];
    let out = launch(&build_rope_forward(1), 4, args);
    for row in 0..4 {
        let want = rotated(&x[row * 8..][..8], 8, 5 + row / 2, 100.0, 1.0);
        assert_close(&out[1].floats()[row * 8..][..8], &want);
    }
}

#[test]
fn queries_attend_to_all_keys() {
    // Two heads that share keys and values of 32 numbers, at five positions.
    let (dim, positions) = (32, 5);
    let q = mixed(2 * dim);
    let k: Vec<f32> = mixed(positions * dim + 7)[7..].to_vec();
    let v: Vec<f32> = mixed(positions * dim + 19)[19..].to_vec();
    let args = vec![
        Arg::Floats(q.clone()),
        Arg::Floats(k.clone()),
        Arg::Floats(v.clone()),
        Arg::Floats(vec![0.0; 2 * dim]),
        Arg::F32(0.25),
        Arg::U32(dim as u32),
        Arg::U32(positions as u32),
        Arg::U32(dim as u32),
    ];
    let out = launch(&build_flash_attn_decode(dim as u32, 1), 2, args);
    for head in 0..2 {
        let score = |p: usize| {
            (0..dim).map(|d| q[head * dim + d] * k[p * dim + d]).sum::<f32>() * 0.25
        };
        let weights: Vec<f32> = (0..positions).map(|p| score(p).exp()).collect();
        let total: f32 = weights.iter().sum();
        let want: Vec<f32> = (0..dim)
            .map(|d| (0..positions).map(|p| weights[p] * v[p * dim + d]).sum::<f32>() / total)
            .collect();
        assert_close(&out[3].floats()[head * dim..][..dim], &want);
    }
}
