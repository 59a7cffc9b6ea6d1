use t0_gpu::argmax_kernels::{
    argmax_grid, argmax_reduce_grid, build_argmax, build_argmax_large, build_argmax_reduce,
};
use t0_gpu::attention_kernels::{
    attn_gather_grid, attn_scale_grid, attn_scatter_grid, attn_transpose_grid, build_attn_gather,
    build_attn_scale, build_attn_scale_causal, build_attn_scatter, build_attn_transpose,
    cpu_attn_gather, cpu_attn_scatter, cpu_attn_transpose,
};
use t0_gpu::block_dsl::{BNode, BlockKernel};
use t0_gpu::block_dsl_to_ssa::block_to_ssa;
use t0_gpu::elementwise_kernels::{
    build_bf16_store_test, build_f32_to_bf16_b32, build_f32_to_bf16_padded,
    build_f32_to_bf16_transpose_padded, build_memcpy, build_memcpy_kv_x4, build_memcpy_kv_x16,
    build_memcpy_x4, build_residual_add, build_scale, elementwise_grid, elementwise_grid_x4,
    elementwise_grid_x16, f32_to_bf16_grid,
};
use t0_gpu::embedding_kernels::{
    build_embedding_backward, build_embedding_forward, build_embedding_gather_bf16,
    cpu_embedding_forward, cpu_embedding_gather_bf16, embedding_grid, embedding_wg_size,
};
use t0_gpu::flash_attn_kernels::{build_flash_attn_decode, flash_attn_decode_grid};
use t0_gpu::rmsnorm_kernels::{
    build_rmsnorm_backward, build_rmsnorm_forward, build_rmsnorm_residual_add, rmsnorm_grid,
    rmsnorm_wg_size,
};
use t0_gpu::rope_kernels::{build_rope_backward, build_rope_forward, rope_grid, rope_wg_size};
use t0_gpu::safe_mode::SafeResult;

#[test]
fn test_argmax_grid_dims() {
    let (gx, gy) = argmax_grid(1);
    assert_eq!(gx, 256);
    assert_eq!(gy, 1);

    let (gx, gy) = argmax_grid(32);
    assert_eq!(gx, 8192);
    assert_eq!(gy, 1);
}

#[test]
fn test_argmax_reduce_grid_dims() {
    let (gx, gy) = argmax_reduce_grid(1);
    assert_eq!(gx, 256);
    assert_eq!(gy, 1);

    let (gx, gy) = argmax_reduce_grid(594);
    assert_eq!(gx, 594 * 256);
    assert_eq!(gy, 1);
}

#[test]
fn test_cpu_gather() {
    // 2 rows, 3 heads, head_dim=2 → stride=6
    let inp: Vec<f32> = (0..12).map(|i| i as f32).collect();
    let mut out = vec![0.0f32; 4]; // 2 rows * head_dim=2
    cpu_attn_gather(&mut out, &inp, 2, 6, 1, 2);
    // row 0, head 1: inp[0*6+1*2+0]=2, inp[0*6+1*2+1]=3
    // row 1, head 1: inp[1*6+1*2+0]=8, inp[1*6+1*2+1]=9
    assert_eq!(out, vec![2.0, 3.0, 8.0, 9.0]);
}

#[test]
fn test_cpu_transpose() {
    // [2, 3] → [3, 2]
    let inp = vec![1.0, 2.0, 3.0, 4.0, 5.0, 6.0];
    let mut out = vec![0.0f32; 6];
    cpu_attn_transpose(&mut out, &inp, 3, 2);
    assert_eq!(out, vec![1.0, 4.0, 2.0, 5.0, 3.0, 6.0]);
}

#[test]
fn test_cpu_scatter() {
    // scatter head 1 of 3 heads, head_dim=2, 2 rows
    let inp = vec![10.0, 20.0, 30.0, 40.0];
    let mut out = vec![0.0f32; 12]; // 2 rows * stride=6
    cpu_attn_scatter(&mut out, &inp, 2, 6, 1, 2);
    // row 0: out[2]=10, out[3]=20
    // row 1: out[8]=30, out[9]=40
    assert_eq!(out[2], 10.0);
    assert_eq!(out[3], 20.0);
    assert_eq!(out[8], 30.0);
    assert_eq!(out[9], 40.0);
    // others remain 0
    assert_eq!(out[0], 0.0);
    assert_eq!(out[5], 0.0);
}

#[test]
fn test_cpu_embedding_forward() {
    let table = vec![
        1.0, 2.0, 3.0, // row 0
        4.0, 5.0, 6.0, // row 1
        7.0, 8.0, 9.0, // row 2
    ];
    let indices = vec![2u32, 0, 1];
    let mut output = vec![0.0; 9];
    cpu_embedding_forward(&table, &indices, &mut output, 3, 3);
    assert_eq!(&output[0..3], &[7.0, 8.0, 9.0]); // row 2
    assert_eq!(&output[3..6], &[1.0, 2.0, 3.0]); // row 0
    assert_eq!(&output[6..9], &[4.0, 5.0, 6.0]); // row 1
}

#[test]
fn gathering_undoes_scattering() {
    let head = [1u8, 2, 3, 4, 5, 6];
    let mut all = [0u8; 18];
    cpu_attn_scatter(&mut all, &head, 2, 6, 2, 3);
    let mut back = [0u8; 6];
    cpu_attn_gather(&mut back, &all, 2, 6, 2, 3);
    assert_eq!(back, head);
}

#[test]
fn transposing_twice_changes_nothing() {
    let m = [1u8, 2, 3, 4, 5, 6, 7, 8, 9, 10, 11, 12];
    let mut t = [0u8; 12];
    cpu_attn_transpose(&mut t, &m, 4, 3);
    assert_eq!(t, [1, 5, 9, 2, 6, 10, 3, 7, 11, 4, 8, 12]);
    let mut back = [0u8; 12];
    cpu_attn_transpose(&mut back, &t, 3, 4);
    assert_eq!(back, m);
}

#[test]
fn half_numbers_are_widened() {
    // 1.0 is 0x3F80 and -2.0 is 0xC000
    let table = [0u8, 0, 0, 0, 0x80, 0x3F, 0x00, 0xC0];
    let row = cpu_embedding_gather_bf16(&table, 1, 2);
    assert_eq!(row, vec![1.0f32.to_bits(), (-2.0f32).to_bits()]);
    assert_eq!(cpu_embedding_gather_bf16(&table, 7, 0), Vec::<u32>::new());
}

#[test]
fn grids_have_enough_threads() {
    assert_eq!(attn_gather_grid(5), (640, 1));
    assert_eq!(attn_transpose_grid(5), (640, 1));
    assert_eq!(attn_scale_grid(5), (640, 1));
    assert_eq!(attn_scatter_grid(5), (640, 1));
    assert_eq!(elementwise_grid(257), 512);
    assert_eq!(elementwise_grid(0), 0);
    assert_eq!(elementwise_grid_x4(1025), 512);
    assert_eq!(elementwise_grid_x16(4097), 512);
    assert_eq!(f32_to_bf16_grid(3), 768);
    assert_eq!(embedding_grid(3), (768, 1));
    assert_eq!(embedding_wg_size(), 256);
    assert_eq!(rmsnorm_grid(3), (768, 1));
    assert_eq!(rmsnorm_wg_size(), 256);
    assert_eq!(rope_grid(3), (384, 1));
    assert_eq!(rope_wg_size(), 128);
    assert_eq!(flash_attn_decode_grid(4, 64), (256, 1));
}

fn stores(kb: &BlockKernel) -> usize {
    kb.get_nodes().iter().filter(|n| matches!(n, BNode::Store { .. })).count()
}

fn all_kernels() -> Vec<(BlockKernel, u32)> {
    vec![
        (build_argmax(), 256),
        (build_argmax_large(), 256),
        (build_argmax_reduce(), 256),
        (build_attn_gather(), 128),
        (build_attn_transpose(), 128),
        (build_attn_scale(), 128),
        (build_attn_scale_causal(), 128),
        (build_attn_scatter(), 128),
        (build_memcpy(), 256),
        (build_residual_add(), 256),
        (build_scale(), 256),
        (build_memcpy_x4(), 256),
        (build_memcpy_kv_x4(), 256),
        (build_memcpy_kv_x16(), 256),
        (build_bf16_store_test(), 256),
        (build_f32_to_bf16_b32(), 256),
        (build_f32_to_bf16_padded(), 256),
        (build_f32_to_bf16_transpose_padded(), 256),
        (build_embedding_forward(), 256),
        (build_embedding_backward(), 256),
        (build_embedding_gather_bf16(), 256),
        (build_flash_attn_decode(64, 2), 64),
        (build_rmsnorm_forward(), 256),
        (build_rmsnorm_backward(), 256),
        (build_rmsnorm_residual_add(), 256),
        (build_rope_forward(3), 128),
        (build_rope_backward(), 128),
    ]
}

#[test]
fn kernels_have_their_names_and_sizes() {
    let kernels = all_kernels();
    for (kb, size) in &kernels {
        assert_eq!(kb.get_block_size(), *size, "{}", kb.kernel_name());
        assert!(!kb.kernel_name().is_empty());
        assert!(kb.get_nodes().len() > 5, "{}", kb.kernel_name());
    }
    assert_eq!(build_memcpy().kernel_name(), "memcpy");
    assert_eq!(stores(&build_memcpy()), 1);
    assert_eq!(stores(&build_memcpy_x4()), 4);
    assert_eq!(stores(&build_memcpy_kv_x16()), 32);
    assert_eq!(stores(&build_argmax()), 1);
}

#[test]
fn copying_reads_and_writes_the_same_place() {
    let kb = build_memcpy();
    let last = &kb.get_nodes()[10];
    match (&kb.get_nodes()[9], last) {
        (
            BNode::Load { ptr, offsets, mask },
            BNode::Store { ptr: out, offsets: at, val, mask: m },
        ) => {
            assert_eq!((ptr.0, out.0, val.0), (0, 1, 9));
            assert_eq!((offsets, mask), (at, m));
        },
        other => panic!("{:?}", other),
    }
}

#[test]
fn kernels_translate_to_functions() {
    for (kb, _) in all_kernels() {
        match block_to_ssa(&kb) {
            Ok(f) => assert!(f.dump().starts_with(&format!("func {}\n", kb.kernel_name()))),
            Err(e) => panic!("{}: {}", kb.kernel_name(), e),
        }
    }
}

#[test]
fn checks_tell_what_went_wrong() {
    let good: SafeResult<u32> = SafeResult::Passed(7);
    assert!(good.is_ok());
    assert_eq!(good.report(), "OK");
    assert_eq!(good.unwrap(), 7);
    let bad = [
        SafeResult::<u32>::CpuError(String::from("cpu")),
        SafeResult::VerifyError(String::from("binary")),
        SafeResult::DispatchError(String::from("launch")),
    ];
    let words: Vec<&str> = bad.iter().map(|r| r.report()).collect();
    assert_eq!(words, ["cpu", "binary", "launch"]);
    assert!(bad.iter().all(|r| !r.is_ok()));
}
