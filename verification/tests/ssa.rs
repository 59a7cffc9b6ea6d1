use t0_gpu::block_dsl::{BlockKernel, TileGemmConfig};
use t0_gpu::block_dsl_to_ssa::block_to_ssa;
use t0_gpu::tile_ssa::TileOp;

/// Test: BlockKernel vector_add → TileFunc SSA translation (no GPU).
#[test]
fn test_block_to_ssa_basic() {
    let mut kb = BlockKernel::new("vadd_test", 64);
    let x_ptr = kb.arg_ptr("x");
    let y_ptr = kb.arg_ptr("y");
    let out_ptr = kb.arg_ptr("out");
    let n = kb.arg_u32("n");

    let pid = kb.program_id(0);
    let c64 = kb.const_u32(64);
    let base = pid.mul(&mut kb, c64);
    let offsets = kb.arange(0, 64).add(&mut kb, base);
    let mask = offsets.lt(&mut kb, n);
    let a = kb.load(x_ptr, offsets, mask);
    let b = kb.load(y_ptr, offsets, mask);
    let c = a.add(&mut kb, b);
    kb.store(out_ptr, offsets, c, mask);

    // Translate to SSA
    let func = block_to_ssa(&kb).unwrap();
    let ir_text = func.dump();

    // Verify structure (match IR dump format)
    assert!(ir_text.contains("ptr /*x*/"));
    assert!(ir_text.contains("ptr /*y*/"));
    assert!(ir_text.contains("ptr /*out*/"));
    assert!(ir_text.contains("Add"));
    assert!(ir_text.contains("load"));
    assert!(ir_text.contains("store"));
}

/// Test: BlockKernel SiLU → TileFunc SSA translation (no GPU).
#[test]
fn test_block_to_ssa_silu() {
    let mut kb = BlockKernel::new("silu_test", 64);
    let x_ptr = kb.arg_ptr("x");
    let out_ptr = kb.arg_ptr("out");
    let n = kb.arg_u32("n");

    let offsets = kb.arange(0, 64);
    let mask = offsets.lt(&mut kb, n);
    let x = kb.load(x_ptr, offsets, mask);
    let y = x.silu(&mut kb); // silu = x * sigmoid(x)
    kb.store(out_ptr, offsets, y, mask);

    let func = block_to_ssa(&kb).unwrap();
    let ir_text = func.dump();
    assert!(ir_text.contains("Neg"));
    assert!(ir_text.contains("Exp"));
    assert!(ir_text.contains("Rcp"));
}

/// Test: LDS alloc + store + barrier + load → SSA translation (unit test, no GPU)
#[test]
fn test_block_to_ssa_lds() {
    let mut kb = BlockKernel::new("lds_test", 64);
    let x_ptr = kb.arg_ptr("x");
    let out_ptr = kb.arg_ptr("out");
    let n = kb.arg_u32("n");

    let offsets = kb.arange(0, 64);
    let mask = offsets.lt(&mut kb, n);
    let x = kb.load(x_ptr, offsets, mask);

    // Store to LDS, barrier, load back
    let lds = kb.lds_alloc(64 * 4);
    let tid = kb.thread_id();
    kb.lds_store(lds, tid, x);
    kb.barrier();
    let y = kb.lds_load(lds, tid);

    kb.store(out_ptr, offsets, y, mask);

    let func = block_to_ssa(&kb).unwrap();
    let ir_text = func.dump();
    assert!(ir_text.contains("lds_alloc"));
    assert!(ir_text.contains("lds_store"));
    assert!(ir_text.contains("lds_load"));
    assert!(ir_text.contains("barrier"));
}

/// Test: ForBegin/ForEnd → SSA translation (unit test, no GPU)
#[test]
fn test_block_to_ssa_for_loop() {
    // Simple loop: for i in 0..4: out[tid] += 1.0
    let mut kb = BlockKernel::new("loop_test", 32);
    let out_ptr = kb.arg_ptr("out");
    let n = kb.arg_u32("n");

    let start = kb.const_u32(0);
    let end = kb.const_u32(4);
    let iter_var = kb.for_range(start, end, 1);

    // Body: just use iter_var to prove the loop variable works
    let _iter_f32 = iter_var.to_f32(&mut kb);

    kb.end_for(iter_var);

    // After loop: store something
    let offsets = kb.arange(0, 32);
    let mask = offsets.lt(&mut kb, n);
    let one = kb.const_f32(1.0f32.to_bits());
    kb.store(out_ptr, offsets, one, mask);

    let func = block_to_ssa(&kb).unwrap();
    let ir_text = func.dump();
    // Should have multiple basic blocks (entry, header, body, exit)
    assert!(ir_text.contains("bb1"), "Should have bb1 (header)");
    assert!(ir_text.contains("bb2"), "Should have bb2 (body)");
    assert!(ir_text.contains("bb3"), "Should have bb3 (exit)");
}

/// Test: WMMA operations → SSA translation (unit test, no GPU)
#[test]
fn test_block_to_ssa_wmma() {
    let mut kb = BlockKernel::new("wmma_test", 32);
    let _out_ptr = kb.arg_ptr("out");

    // ZeroAcc → 8×f32 accumulator
    let acc = kb.zero_acc();
    // SplatFragment → 8×u32 fragment (method on BVal)
    let one_f32 = kb.const_f32(1.0f32.to_bits());
    let one_u32 = one_f32.to_u32(&mut kb);
    let frag = one_u32.splat_fragment(&mut kb);
    // CvtPkBf16F32 → bf16x2
    let a_f32 = kb.const_f32(2.0f32.to_bits());
    let b_f32 = kb.const_f32(3.0f32.to_bits());
    let _pk = kb.cvt_pk_bf16(a_f32, b_f32);
    // Wmma: acc = frag * frag + acc (method on BVal: a.wmma(kb, b, acc))
    let acc2 = frag.wmma(&mut kb, frag, acc);
    // ExtractF32: get [0] from accumulator (method on BVal: acc.extract(kb, idx))
    let _elem = acc2.extract(&mut kb, 0);

    let func = block_to_ssa(&kb).unwrap();
    let ir_text = func.dump();
    assert!(ir_text.contains("zero_acc"), "Should have zero_acc");
    assert!(ir_text.contains("wmma"), "Should have wmma");
    assert!(ir_text.contains("extract"), "Should have extract");
    assert!(ir_text.contains("splat_fragment"), "Should have splat_fragment");
    assert!(ir_text.contains("cvt_pk_bf16_f32"), "Should have cvt_pk_bf16_f32");
}

/// Test: WgReduceAdd SSA compilation (no GPU)
#[test]
fn test_block_to_ssa_wg_reduce() {
    let mut kb = BlockKernel::new("wg_reduce_test", 64);
    let _out_ptr = kb.arg_ptr("out");
    let _n = kb.arg_u32("n");

    let val = kb.const_f32(1.0f32.to_bits());
    let _sum = kb.wg_reduce_sum(val);
    let _max = kb.wg_reduce_max(val);

    let func = block_to_ssa(&kb).unwrap();
    let ir_text = func.dump();
    assert!(ir_text.contains("wg_reduce_add"), "Should have wg_reduce_add");
    assert!(ir_text.contains("wg_reduce_max"), "Should have wg_reduce_max");
}

/// Test: TileGemm → TileFunc SSA translation (unit test, no GPU)
#[test]
fn test_block_to_ssa_tile_gemm() {
    let mut kb = BlockKernel::new("gemm_ssa_test", 128);
    let x = kb.arg_ptr("X");
    let w = kb.arg_ptr("W");
    let y = kb.arg_ptr("Y");
    let k = kb.arg_u32("K");
    let n = kb.arg_u32("N");

    let config = TileGemmConfig {
        tile_m: 32,
        tile_n: 64,
        tile_k: 16,
        wgp_mode: false,
        split_k: 1,
        swap_grid: false,
    };
    kb.tile_gemm(x, w, y, k, n, config);

    let func = block_to_ssa(&kb).unwrap();
    let ir_text = func.dump();

    // Verify tile ops were emitted
    assert!(ir_text.contains("tile_load_2d"), "Should have tile_load_2d");
    assert!(ir_text.contains("tile_dot"), "Should have tile_dot");
    assert!(ir_text.contains("tile_store_2d"), "Should have tile_store_2d");
    // tile_zeros() emits splat(0.0) in IR
    assert!(ir_text.contains("splat"), "Should have splat (from tile_zeros)");

    // ── Verify TensorLayout annotations ──
    // tile_load_2d results should have Shared layout (#shared)
    assert!(ir_text.contains("#shared"), 
        "tile_load_2d should produce #shared layout in IR dump. Got:\n{}", ir_text);
    // tile_dot / tile_zeros results should have MmaAccumulator layout (#mma)
    assert!(ir_text.contains("#mma"),
        "tile_dot/tile_zeros should produce #mma layout in IR dump. Got:\n{}", ir_text);

    // Structural: verify layout types on specific values
    let all_ops = func.all_ops();
    for op in all_ops {
        match op {
            TileOp::TileLoad2D { result, .. } => {
                assert!(func.value_type(result).layout().is_shared(),
                    "TileLoad2D result should be Shared, got: {:?}", func.value_type(result));
            }
            TileOp::TileDot { result, .. } => {
                assert!(func.value_type(result).layout().is_mma(),
                    "TileDot result should be MmaAccumulator, got: {:?}", func.value_type(result));
            }
            _ => {}
        }
    }
}

/// Test: ForAccBegin/ForAccEnd → SSA for_range_with_acc_runtime translation
#[test]
fn test_block_to_ssa_for_acc() {
    let mut kb = BlockKernel::new("sum_test", 256);
    let _ptr = kb.arg_ptr("data");
    let out = kb.arg_ptr("out");
    let n = kb.arg_u32("n");

    // Create accumulator loop: sum = 0; for i in [0, n) { sum += 1.0 }
    let zero = kb.const_f32(0.0f32.to_bits());
    let start = kb.const_u32(0);
    let one = kb.const_f32(1.0f32.to_bits());

    let (iter, acc) = kb.for_range_acc(start, n, 1, zero);
    let _ = iter; // iter var available but unused here
    let new_acc = acc.add(&mut kb, one);
    let result = kb.end_for_acc(iter, new_acc);

    // Store result
    let pid = kb.program_id(0);
    let bs = kb.const_u32(256);
    let pid_mul = pid.mul(&mut kb, bs);
    let arange = kb.arange(0, 256);
    let offsets = arange.add(&mut kb, pid_mul);
    let mask = offsets.lt(&mut kb, n);
    kb.store(out, offsets, result, mask);

    // Translate to SSA
    let func = block_to_ssa(&kb).expect("block_to_ssa should succeed for ForAcc kernel");
    assert!(!func.dump().is_empty());

    // Verify SSA structure
    // Should have >=  4 blocks: entry, header, body, exit
    let blocks = func.all_blocks();
    assert!(blocks.len() >= 4,
        "Should have >= 4 blocks (entry, header, body, exit), got {}", blocks.len());

    // Header block (bb1) should have 2 params: iv (U32) and acc (F32)
    let header = &blocks[1];
    assert_eq!(header.params.len(), 2,
        "Header block should have 2 params (iv, acc), got {}", header.params.len());
}

/// Test: IfMask (if-only, no else) → SSA translation
#[test]
fn test_block_to_ssa_if_only() {
    let mut kb = BlockKernel::new("if_only_ssa", 32);
    let x = kb.arg_ptr("x");
    let y = kb.arg_ptr("y");
    let n = kb.arg_u32("n");

    let offsets = kb.arange(0, 32);
    let mask = offsets.lt(&mut kb, n);
    let a = kb.load(x, offsets, mask);
    let two = kb.const_f32(2.0f32.to_bits());
    let doubled = a.mul(&mut kb, two);

    kb.if_mask(mask);
    kb.store(y, offsets, doubled, mask);
    kb.end_if();

    let func = block_to_ssa(&kb).unwrap();
    let ir_text = func.dump();
    assert!(ir_text.contains("exec_mask_push"), "Should contain exec_mask_push");
    assert!(ir_text.contains("exec_mask_pop"), "Should contain exec_mask_pop");
    assert!(!ir_text.contains("exec_mask_flip"), "Should NOT contain exec_mask_flip (no else)");
}

/// Test: IfMask/ElseMask/EndIf → SSA translation
#[test]
fn test_block_to_ssa_if_else() {
    let mut kb = BlockKernel::new("if_else_ssa", 32);
    let x = kb.arg_ptr("x");
    let y = kb.arg_ptr("y");
    let n = kb.arg_u32("n");

    let offsets = kb.arange(0, 32);
    let mask = offsets.lt(&mut kb, n);
    let a = kb.load(x, offsets, mask);

    kb.if_mask(mask);
    kb.store(y, offsets, a, mask);
    kb.else_mask();
    let zero = kb.const_f32(0.0f32.to_bits());
    kb.store(y, offsets, zero, mask);
    kb.end_if();

    let func = block_to_ssa(&kb).unwrap();
    let ir_text = func.dump();
    assert!(ir_text.contains("exec_mask_push"), "Should contain exec_mask_push");
    assert!(ir_text.contains("exec_mask_flip"), "Should contain exec_mask_flip");
    assert!(ir_text.contains("exec_mask_pop"), "Should contain exec_mask_pop");
}

/// A node that is no value cannot be used as one.
#[test]
fn missing_values_are_named() {
    let mut kb = BlockKernel::new("missing", 32);
    let out = kb.arg_ptr("out");
    let n = kb.arg_u32("n");
    let start = kb.const_u32(0);
    let iter_var = kb.for_range(start, n, 1);
    kb.end_for(iter_var);
    let x = kb.const_f32(1.0f32.to_bits());
    let offsets = kb.arange(0, 32);
    let mask = offsets.lt(&mut kb, n);
    kb.store(out, offsets, x, mask);
    assert!(block_to_ssa(&kb).is_ok());

    // Ending the same loop a second time finds no open loop.
    let mut kb = BlockKernel::new("twice", 32);
    let start = kb.const_u32(0);
    let end = kb.const_u32(4);
    let iter_var = kb.for_range(start, end, 1);
    kb.end_for(iter_var);
    kb.end_for(iter_var);
    let e = block_to_ssa(&kb).err().unwrap();
    assert!(e.contains(&format!("{}", iter_var.0)), "{}", e);
}

/// Every value of the graph becomes a value of the function.
#[test]
fn simple_kernels_translate() {
    let mut kb = BlockKernel::new("tiny", 32);
    let a = kb.const_u32(7);
    let b = kb.const_u32(9);
    let _c = a.add(&mut kb, b);
    let f = block_to_ssa(&kb).unwrap();
    assert_eq!(f.all_blocks().len(), 1);
    assert_eq!(
        f.dump(),
        "func tiny\nbb0:\n  %0 = const 7 : u32\n  %1 = const 9 : u32\n  %2 = Add %0, %1 : u32\n  return\n"
    );
    // three values and the return
    assert_eq!(f.all_ops().len(), 4);
}

/// A loop becomes four blocks, and its number is a parameter of the second.
#[test]
fn loops_have_four_blocks() {
    let mut kb = BlockKernel::new("loop", 32);
    let start = kb.const_u32(0);
    let end = kb.const_u32(4);
    let iter_var = kb.for_range(start, end, 1);
    kb.end_for(iter_var);
    let f = block_to_ssa(&kb).unwrap();
    assert_eq!(f.all_blocks().len(), 4);
    assert_eq!(f.all_blocks()[1].params.len(), 1);
}
