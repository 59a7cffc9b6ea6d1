pub mod argmax_kernels;
pub mod asm_emitter;
pub mod assembly;
pub mod attention_kernels;
pub mod block_dsl;
pub mod block_dsl_to_ssa;
pub mod combine;
pub mod compile;
pub mod dsl;
pub mod effects;
pub mod elementwise_kernels;
pub mod embedding_kernels;
pub mod flash_attn_kernels;
pub mod fold;
pub mod gemm_gen;
pub mod gemm_lds;
pub mod gemm_threads;
pub mod insn_latency;
pub mod ir;
pub mod lanes;
pub mod latency_model;
pub mod lives;
pub mod loops;
pub mod opt_passes;
pub mod regalloc;
pub mod registers;
pub mod rmsnorm_kernels;
pub mod rope_kernels;
pub mod safe_mode;
pub mod settled;
pub mod simplify;
pub mod spill;
pub mod subexpr;
pub mod text;
pub mod threads;
pub mod tile_ssa;
pub mod tiles;
pub mod translation;
pub mod units;
pub mod waits;
pub mod waves;
