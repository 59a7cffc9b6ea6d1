# t0_gpu

A kernel compiler for GFX11 GPUs, verified with Verus. Kernels are written in one of three
ways:

- as operations on virtual registers (`ir`, `compile`), which end as assembly text: passes
  (`opt_passes`, `fold`, `simplify`, `subexpr`, `combine`, `loops`, `waits`) that go by a model of
  latencies (`latency_model`, `insn_latency`) optimize them, `lives` and `regalloc` place their
  registers, `spill` moves what has no place to the local data share, and `asm_emitter` writes
  them down; `effects` states what the passes together keep, and `settled` which operations
  always can be written down;
- as parameters of a matrix multiplication (`gemm_gen`, `gemm_lds`), which give such operations;
- as graphs of values per thread (`block_dsl`), which end as functions in static single
  assignment form (`block_dsl_to_ssa`, `tile_ssa`).

The kernel modules (`elementwise_kernels`, `attention_kernels`, `embedding_kernels`,
`rmsnorm_kernels`, `rope_kernels`, `flash_attn_kernels`, `argmax_kernels`) build graphs.

What graphs and operations mean for a thread is stated in `lanes` and `threads`; on top of that
the kernel modules and `gemm_threads` state what their kernels compute.

## Layout

- `src/` holds the library. Every function has a contract over spec functions that say what is
  built: lists of operations, of nodes, or text. Public proof functions state what holds across
  functions.
- `tests/` runs the library. `lanes.rs` and `gemm_run.rs` run kernels on small inputs.
- `app/` calls the assembler of LLVM, reads options from the environment, and holds what
  computes in floating point.
