use t0_gpu::gemm_gen::{
    EpilogueOp, GemmConfig, GemmTranspose, auto_select, auto_select_backward_data,
    auto_select_backward_weight, auto_select_legacy, build_kernargs, build_kernargs_backward_data,
    build_kernargs_backward_weight, build_kernargs_with_bias, compute_grid, compute_grid_auto,
    compute_grid_backward_data, compute_grid_backward_weight, compute_grid_split_k, generate,
    standard_configs, sweep_configs,
};
use t0_gpu::ir::{Op, Target};

#[test]
fn test_auto_select_sizes() {
    // Small square: should produce a valid config
    let c = auto_select(256, 256, 256);
    assert!(c.tile_m >= 16 && c.tile_m <= 256, "tile_m={}", c.tile_m);
    assert!(c.tile_n >= 32 && c.tile_n <= 128, "tile_n={}", c.tile_n);
    assert!(c.wg_size >= 32, "wg_size={}", c.wg_size);

    // Medium square: should use >=64 tile_m
    let c = auto_select(1024, 1024, 1024);
    assert!(c.tile_m >= 64, "1024² tile_m should be >= 64: {}", c.tile_m);
    assert_eq!(c.tile_k, 16);

    // Very large: should use large tiles
    let c = auto_select(8192, 8192, 8192);
    assert!(c.tile_m >= 64, "8192³ tile_m should be >= 64: {}", c.tile_m);

    // Thin M: tile_m should divide M
    let c = auto_select(128, 4096, 4096);
    assert!(128 % c.tile_m == 0, "tile_m={} should divide M=128", c.tile_m);
}

/// Verify auto_select_legacy still works (preserved for A/B comparison)
#[test]
fn test_auto_select_legacy_preserved() {
    let c = auto_select_legacy(256, 256, 256);
    assert!(c.split_k.unwrap_or(1) > 1, "legacy small should use split-K");
    assert_eq!(c.tile_m, 64);

    let c = auto_select_legacy(1024, 1024, 1024);
    assert_eq!(c.tile_m, 128);
    assert!(c.wgp_mode);
}

#[test]
fn test_epilogue_name_tags() {
    let mut cfg = GemmConfig::tile_32x64_k16();
    assert!(cfg.name().contains("t0_gemm_32x64_k16"));
    assert!(!cfg.name().contains("_bias"));

    cfg.epilogue = EpilogueOp::BiasAddStoreF32;
    assert!(cfg.name().ends_with("_bias"), "name={}", cfg.name());

    cfg.epilogue = EpilogueOp::BiasAddReluStoreF32;
    assert!(cfg.name().ends_with("_bias_relu"), "name={}", cfg.name());
}

#[test]
fn test_epilogue_bias_generates() {
    let mut cfg = GemmConfig::tile_32x64_k16();
    cfg.epilogue = EpilogueOp::BiasAddStoreF32;
    // generate() should succeed without panic
    let _kernel = generate(&cfg);
}

#[test]
fn test_epilogue_bias_relu_generates() {
    let mut cfg = GemmConfig::tile_32x64_k16();
    cfg.epilogue = EpilogueOp::BiasAddReluStoreF32;
    let _kernel = generate(&cfg);
}

#[test]
fn test_kernargs_with_bias_layout() {
    let cfg = GemmConfig::tile_32x64_k16();
    let ka = build_kernargs_with_bias(0x1000, 0x2000, 0x3000, 64, 64, 128, &cfg, 0x4000);
    assert_eq!(ka.len(), 48);
    // Verify bias_ptr at bytes 40..48
    let bias = u64::from_le_bytes(ka[40..48].try_into().unwrap());
    assert_eq!(bias, 0x4000);
}

#[test]
fn test_build_kernargs_m_at_40() {
    let cfg = GemmConfig::tile_16x64_k16();
    let ka = build_kernargs(0x1000, 0x2000, 0x3000, 16, 64, 3, &cfg);
    assert_eq!(ka.len(), 44);
    let m_val = u32::from_le_bytes([ka[40], ka[41], ka[42], ka[43]]);
    assert_eq!(m_val, 3, "M should be 3 at offset 40, got {}", m_val);
    let n_val = u32::from_le_bytes([ka[28], ka[29], ka[30], ka[31]]);
    assert_eq!(n_val, 64, "N should be 64 at offset 28, got {}", n_val);
    let k_val = u32::from_le_bytes([ka[24], ka[25], ka[26], ka[27]]);
    assert_eq!(k_val, 16, "K should be 16 at offset 24, got {}", k_val);
}

#[test]
fn all_common_arguments_are_laid_out() {
    let cfg = GemmConfig { split_k: Some(4), ..GemmConfig::tile_64x64_k16() };
    let ka = build_kernargs(0x0102_0304_0506_0708, 0x2000, 0x3000, 256, 64, 128, &cfg);
    assert_eq!(ka[0..8], [8, 7, 6, 5, 4, 3, 2, 1]);
    assert_eq!(u64::from_le_bytes(ka[8..16].try_into().unwrap()), 0x2000);
    assert_eq!(u64::from_le_bytes(ka[16..24].try_into().unwrap()), 0x3000);
    assert_eq!(u32::from_le_bytes(ka[24..28].try_into().unwrap()), 256);
    assert_eq!(u32::from_le_bytes(ka[28..32].try_into().unwrap()), 64);
    assert_eq!(u32::from_le_bytes(ka[32..36].try_into().unwrap()), 0);
    // one layer of the output: 128 rows of 64 words
    assert_eq!(u32::from_le_bytes(ka[36..40].try_into().unwrap()), 128 * 64 * 4);
    assert_eq!(u32::from_le_bytes(ka[40..44].try_into().unwrap()), 128);

    let whole = GemmConfig::tile_64x64_k16();
    let kb = build_kernargs_with_bias(1, 2, 3, 256, 64, 128, &whole, 4);
    assert_eq!(u32::from_le_bytes(kb[36..40].try_into().unwrap()), 0);
    assert_eq!(u64::from_le_bytes(kb[0..8].try_into().unwrap()), 1);
    assert_eq!(u64::from_le_bytes(kb[40..48].try_into().unwrap()), 4);
}

#[test]
fn sizes_of_the_32x64_tile() {
    let cfg = GemmConfig::tile_32x64_k16();
    assert_eq!(cfg.n_col_tiles(), 4);
    assert_eq!(cfg.n_row_blocks(), 1);
    assert_eq!(cfg.n_waves(), 2);
    assert_eq!(cfg.rows_per_wave(), 16);
    assert_eq!(cfg.k_sub_steps(), 1);
    assert_eq!(cfg.lds_per_buffer(), 3072);
    assert_eq!(cfg.lds_total(), 6144);
    assert_eq!(cfg.lds_x_size(), 1024);
    assert_eq!(cfg.lds_wt_size(), 2048);
    assert_eq!(cfg.lds_x_row_stride(), 32);
    assert_eq!(cfg.lds_wt_row_stride(), 32);
    assert_eq!(cfg.x_bytes_per_thread(), 16);
    assert_eq!(cfg.wt_bytes_per_thread(), 32);
    assert_eq!(cfg.wmma_per_k_tile(), 4);
    // 32 + 8 + 32 + 4 + 8 + 32
    assert_eq!(cfg.estimated_vgprs(), 116);
    assert!(cfg.is_feasible());
    assert_eq!(GemmConfig { double_buffer: false, ..cfg }.lds_total(), 3072);
    assert_eq!(GemmConfig { lds_pad: 8, ..cfg }.lds_x_size(), 32 * 40);
}

#[test]
fn wide_tiles_need_too_many_registers() {
    assert_eq!(GemmConfig::tile_64x128_k16().estimated_vgprs(), 264);
    assert!(!GemmConfig::tile_64x128_k16().is_feasible());
    assert_eq!(GemmConfig::tile_128x128_k16().estimated_vgprs(), 256);
    assert!(GemmConfig::tile_128x128_k16().is_feasible());
    assert!(GemmConfig::tile_128x64_k16().is_feasible());
    assert!(GemmConfig::tile_64x128_2pass().is_feasible());
}

#[test]
fn configurations_without_a_kernel() {
    let good = GemmConfig::tile_64x64_k16();
    assert!(good.is_generable());
    assert!(GemmConfig { split_k: Some(16), ..good }.is_generable());
    assert!(!GemmConfig { split_k: Some(3), ..good }.is_generable());
    assert!(!GemmConfig { split_k: Some(0), ..good }.is_generable());
    assert!(!GemmConfig { tile_m: 48, ..good }.is_generable());
    assert!(!GemmConfig { tile_n: 16, ..good }.is_generable());
    assert!(!GemmConfig { tile_k: 128, ..good }.is_generable());
    assert!(!GemmConfig { wg_size: 16, ..good }.is_generable());
    assert!(!GemmConfig { wg_size: 1024, ..good }.is_generable());
    assert!(!GemmConfig { lds_pad: u32::MAX, ..good }.is_generable());
    assert!(!GemmConfig::tile_64x128_k16().is_generable());
    for cfg in standard_configs() {
        assert!(cfg.is_generable());
    }
}

#[test]
fn names_tell_what_is_special() {
    assert_eq!(GemmConfig::tile_32x64_k16().name(), "t0_gemm_32x64_k16_ldsdb_wgp");
    assert_eq!(GemmConfig::tile_32x64_direct().name(), "t0_gemm_32x64_k16_direct_wgp");
    assert_eq!(GemmConfig::tile_128x128_2pass().name(), "t0_gemm_128x64_k16_ldsdb_2p_wgp");
    let cfg = GemmConfig {
        double_buffer: false,
        split_k: Some(8),
        swap_grid: false,
        wgp_mode: false,
        transpose: GemmTranspose::NN,
        ..GemmConfig::tile_64x64_k32()
    };
    assert_eq!(cfg.name(), "t0_gemm_64x64_k32_lds_sk8_mg_nn");
    let cfg = GemmConfig { split_k: Some(1), ..GemmConfig::tile_64x64_k64() };
    assert_eq!(cfg.name(), "t0_gemm_64x64_k64_ldsdb_wgp");
}

#[test]
fn constructors_have_their_sizes() {
    let sizes = [
        (GemmConfig::tile_16x64_k16(), 16, 64, 16, 32),
        (GemmConfig::tile_32x64_k32(), 32, 64, 32, 64),
        (GemmConfig::tile_32x128_k16(), 32, 128, 16, 64),
        (GemmConfig::tile_64x64_k16(), 64, 64, 16, 64),
        (GemmConfig::tile_64x64_k64(), 64, 64, 64, 64),
        (GemmConfig::tile_128x64_k32(), 128, 64, 32, 128),
        (GemmConfig::tile_128x128_k16(), 128, 128, 16, 128),
    ];
    for (cfg, m, n, k, wg) in sizes {
        assert_eq!((cfg.tile_m, cfg.tile_n, cfg.tile_k, cfg.wg_size), (m, n, k, wg));
        assert!(cfg.use_lds && cfg.double_buffer && cfg.swap_grid && cfg.wgp_mode);
        assert_eq!(cfg.split_k, None);
        assert_eq!(cfg.epilogue, EpilogueOp::StoreF32);
        assert_eq!(cfg.transpose, GemmTranspose::NT);
    }
    assert!(!GemmConfig::tile_32x64_direct().use_lds);
}

#[test]
fn grids_cover_the_output() {
    let cfg = GemmConfig::tile_64x64_k16();
    // three tiles of columns, two of rows
    assert_eq!(compute_grid(&cfg, 100, 130), (3 * 64, 2));
    assert_eq!(compute_grid(&GemmConfig { swap_grid: false, ..cfg }, 100, 130), (2 * 64, 3));
    assert_eq!(compute_grid_split_k(&cfg, 100, 130, 4), (3 * 64, 8));
    assert_eq!(compute_grid_auto(&cfg, 100, 130), (192, 2));
    assert_eq!(compute_grid_auto(&GemmConfig { split_k: Some(2), ..cfg }, 100, 130), (192, 4));
    // two passes over the columns per tile
    assert_eq!(compute_grid(&GemmConfig::tile_64x128_2pass(), 64, 256), (2 * 64, 1));
    assert_eq!(compute_grid_backward_data(&cfg, 100, 130), (192, 2));
    assert_eq!(compute_grid_backward_weight(&cfg, 100, 130), (192, 2));
}

#[test]
fn splits_divide_the_inner_dimension() {
    // 128 / (16 * 4) = 2, and 8 splits leave one step each
    assert_eq!(auto_select_legacy(256, 128, 256).split_k, Some(8));
    // 16 has no room for two splits
    assert_eq!(auto_select_legacy(256, 16, 256).split_k, None);
    // 80 = 16 * 5: no power of two divides the five tiles
    assert_eq!(auto_select_legacy(256, 80, 256).split_k, None);
    assert_eq!(auto_select_legacy(64, 48, 64).split_k, None);
    // 96 = 16 * 6: two splits of three tiles
    assert_eq!(auto_select_legacy(256, 96, 256).split_k, Some(2));
    assert_eq!(auto_select_legacy(256, 64, 256).split_k, Some(4));
    // 112 = 16 * 7
    assert_eq!(auto_select_legacy(256, 112, 256).split_k, None);
    // 40 does not divide evenly
    assert_eq!(auto_select_legacy(256, 40, 256).split_k, None);
}

#[test]
fn selection_goes_by_shape() {
    let thin = auto_select_legacy(128, 512, 1024);
    assert_eq!((thin.tile_m, thin.split_k, thin.swap_grid), (128, Some(4), false));
    let medium = auto_select_legacy(512, 512, 1024);
    assert_eq!((medium.tile_m, medium.split_k, medium.swap_grid), (128, Some(8), false));
    let small = auto_select_legacy(256, 256, 256);
    assert_eq!((small.tile_m, small.split_k, small.swap_grid), (64, Some(8), false));
    let square = auto_select_legacy(1024, 1024, 1024);
    assert_eq!((square.tile_m, square.split_k, square.swap_grid), (128, Some(2), false));
    let large = auto_select_legacy(2048, 2048, 2048);
    assert_eq!((large.tile_m, large.split_k, large.swap_grid), (128, Some(8), true));
    let odd = auto_select_legacy(2048 + 64, 2048, 2048);
    assert_eq!((odd.tile_m, odd.split_k, odd.swap_grid), (64, Some(4), true));
    let fallback = auto_select_legacy(2048 + 32, 2048, 2048);
    assert_eq!((fallback.tile_m, fallback.split_k), (32, Some(4)));
    assert_eq!(auto_select(2048, 2048, 2048), large);
}

#[test]
fn backward_passes_are_plain_products() {
    assert_eq!(auto_select_backward_data(1024, 512, 2048), auto_select(1024, 512, 2048));
    assert_eq!(auto_select_backward_weight(1024, 512, 2048), auto_select(512, 1024, 2048));
    let cfg = GemmConfig::tile_64x64_k16();
    assert_eq!(
        build_kernargs_backward_data(1, 2, 3, 64, 128, 256, &cfg),
        build_kernargs(1, 2, 3, 128, 256, 64, &cfg)
    );
    assert_eq!(
        build_kernargs_backward_weight(1, 2, 3, 64, 128, 256, &cfg),
        build_kernargs(1, 2, 3, 64, 256, 128, &cfg)
    );
}

#[test]
fn lists_of_configurations() {
    let sweep = sweep_configs();
    assert_eq!(sweep.len(), 9);
    assert_eq!(sweep[0], GemmConfig::tile_16x64_k16());
    assert_eq!(sweep[8], GemmConfig::tile_128x64_k32());
    let standard = standard_configs();
    assert_eq!(standard[7], GemmConfig { split_k: Some(2), ..GemmConfig::tile_32x64_k32() });
    for cfg in &standard {
        assert!(cfg.is_feasible(), "{}", cfg.name());
    }
}

#[test]
fn generated_kernels_are_valid() {
    for cfg in sweep_configs() {
        if cfg.is_feasible() {
            let k = generate(&cfg);
            assert!(k.validate().is_ok(), "{}", cfg.name());
            assert_eq!(k.kernarg_size(), 40);
            assert_eq!(k.lds_size(), cfg.lds_total());
            let products = k.ops().iter().filter(|op| matches!(op, Op::Wmma { .. })).count();
            // both buffers are multiplied in a turn of the loop, and once more behind it
            assert_eq!(products, 4 * cfg.wmma_per_k_tile(), "{}", cfg.name());
        }
    }
    let cfg = GemmConfig { epilogue: EpilogueOp::BiasAddStoreF32, ..GemmConfig::tile_32x64_k16() };
    assert_eq!(generate(&cfg).kernarg_size(), 48);
    let direct = generate(&GemmConfig::tile_32x64_direct());
    assert!(direct.validate().is_ok());
}

#[test]
fn chosen_configurations_have_kernels() {
    for k in [16, 40, 48, 80, 96, 112, 128, 1024] {
        for (m, n) in [(64, 64), (128, 1024), (512, 2048), (1024, 1024), (2080, 2048)] {
            let cfg = auto_select_legacy(m, k, n);
            assert!(cfg.is_generable(), "{} {} {}", m, k, n);
            let splits = cfg.split_k.unwrap_or(1);
            assert!([1, 2, 4, 8].contains(&splits));
            assert_eq!(k % (cfg.tile_k * splits), if splits == 1 { k % cfg.tile_k } else { 0 });
        }
    }
}

#[test]
fn listed_kernels_are_lowered_with_every_epilogue() {
    let mut all = standard_configs();
    all.extend(sweep_configs());
    all.push(GemmConfig::tile_64x64_k64());
    all.push(GemmConfig::tile_32x128_k16());
    all.push(GemmConfig::tile_128x64_k32());
    for cfg in all {
        if !cfg.is_generable() {
            continue;
        }
        for epilogue in [
            EpilogueOp::StoreF32,
            EpilogueOp::BiasAddStoreF32,
            EpilogueOp::BiasAddReluStoreF32,
        ] {
            let cfg = GemmConfig { epilogue, ..cfg };
            let text = generate(&cfg).to_assembly(Target::GFX1100);
            assert!(text.is_ok(), "{} {:?}: {:?}", cfg.name(), epilogue, text.err());
        }
    }
}

#[test]
fn generable_shapes_are_lowered() {
    let mut count = 0;
    for tile_m in [16, 32, 64, 128] {
        for tile_n in [32, 64, 128] {
            for tile_k in [16, 32, 64] {
                for wg_size in [32, 64, 128, 256] {
                    for lds_pad in [0, 4] {
                        let cfg = GemmConfig {
                            tile_m,
                            tile_n,
                            tile_k,
                            wg_size,
                            lds_pad,
                            split_k: Some(2),
                            epilogue: EpilogueOp::BiasAddReluStoreF32,
                            ..GemmConfig::tile_32x64_k16()
                        };
                        if cfg.is_generable() {
                            let lowered = generate(&cfg).to_assembly(Target::GFX1100);
                            assert!(lowered.is_ok(), "{}: {:?}", cfg.name(), lowered.err());
                            count += 1;
                        }
                    }
                }
            }
        }
    }
    assert!(count > 20, "{}", count);
}

#[test]
fn generated_kernels_are_written_as_assembly() {
    let k = generate(&GemmConfig::tile_32x64_k16());
    let text = k.to_assembly(Target::GFX1100).unwrap();
    assert!(text.contains("v_wmma_f32_16x16x16_bf16"));
    assert!(text.contains("s_barrier"));
}
