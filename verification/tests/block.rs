use t0_gpu::block_dsl::{
    BNode, BType, BVal, BlockKernel, F255, F32_MAX, GELU_CUBE, HALF, LN_2, LOG2_E, NEG_INFINITY,
    ONE, SQRT_2_OVER_PI, TWO, TileGemmConfig,
};

#[test]
fn test_block_kernel_basic() {
    let mut kb = BlockKernel::new("test_add", 256);
    let x = kb.arg_ptr("x");
    let y = kb.arg_ptr("y");
    let out = kb.arg_ptr("out");
    let n = kb.arg_u32("n");

    let pid = kb.program_id(0);
    let bs = kb.const_u32(256);
    let base = pid.mul(&mut kb, bs);
    let offsets = kb.arange(0, 256).add(&mut kb, base);
    let mask = offsets.lt(&mut kb, n);
    let a = kb.load(x, offsets, mask);
    let b = kb.load(y, offsets, mask);
    let c = a.add(&mut kb, b);
    kb.store(out, offsets, c, mask);

    assert!(kb.get_nodes().len() > 0);
    assert!(kb.summary().ends_with("stores: 1\n"));
    assert_eq!(
        kb.summary(),
        "BlockKernel 'test_add' (BLOCK_SIZE=256)\n  args: 4\n  nodes: 14\n  stores: 1\n"
    );
}

#[test]
fn bit_patterns_are_those_of_the_numbers() {
    assert_eq!(f32::from_bits(LN_2), std::f32::consts::LN_2);
    assert_eq!(f32::from_bits(LOG2_E), std::f32::consts::LOG2_E);
    assert_eq!(f32::from_bits(HALF), 0.5);
    assert_eq!(f32::from_bits(ONE), 1.0);
    assert_eq!(f32::from_bits(TWO), 2.0);
    assert_eq!(f32::from_bits(GELU_CUBE), 0.044715);
    assert_eq!(f32::from_bits(SQRT_2_OVER_PI), 0.7978845608);
    assert_eq!(f32::from_bits(NEG_INFINITY), f32::NEG_INFINITY);
    assert_eq!(f32::from_bits(F32_MAX), f32::MAX);
    assert_eq!(f32::from_bits(F255), 255.0);
}

#[test]
fn operations_go_by_the_types_of_their_values() {
    let mut kb = BlockKernel::new("types", 32);
    let u = kb.const_u32(1);
    let f = kb.const_f32(ONE);
    let uu = u.add(&mut kb, u);
    let ff = f.add(&mut kb, f);
    assert_eq!(kb.get_type(uu), kb.get_type(u));
    assert_eq!(kb.get_type(ff), kb.get_type(f));
    assert!(kb.get_type(u) != kb.get_type(f));
    assert!(matches!(kb.get_nodes()[uu.0], BNode::AddU32(BVal(0), BVal(0))));
    assert!(matches!(kb.get_nodes()[ff.0], BNode::AddF32(BVal(1), BVal(1))));
    let m = u.lt(&mut kb, uu);
    assert_eq!(kb.get_type(m), BType::Mask);
}

#[test]
fn activations_are_built_from_simple_operations() {
    let mut kb = BlockKernel::new("act", 32);
    let x = kb.arg_f32("x");
    let s = x.sigmoid(&mut kb);
    // 1 / (1 + exp(-x))
    assert!(matches!(kb.get_nodes()[s.0], BNode::RcpF32(_)));
    let before = kb.get_nodes().len();
    let y = x.silu(&mut kb);
    assert!(matches!(kb.get_nodes()[y.0], BNode::MulF32(BVal(0), _)));
    assert!(kb.get_nodes().len() > before + 1);
    let r = x.relu(&mut kb);
    assert!(matches!(kb.get_nodes()[r.0], BNode::MaxF32(BVal(0), _)));
    let c = x.clamp(&mut kb, HALF, ONE);
    assert!(matches!(kb.get_nodes()[c.0], BNode::MaxF32(_, _)));
    let g = x.gelu(&mut kb);
    assert!(matches!(kb.get_nodes()[g.0], BNode::MulF32(_, _)));
}

#[test]
fn blocks_have_one_or_two_dimensions() {
    let mut kb = BlockKernel::new("flat", 128);
    assert_eq!(kb.kernel_name(), "flat");
    assert_eq!(kb.get_block_size(), 128);
    assert_eq!(kb.get_block_size_2d(), [128, 1]);
    kb.set_block_size_2d(16, 8);
    assert_eq!(kb.get_block_size_2d(), [16, 8]);
    assert_eq!(kb.get_block_size(), 128);
}

#[test]
fn loops_name_where_they_begin() {
    let mut kb = BlockKernel::new("loop", 32);
    let start = kb.const_u32(0);
    let end = kb.const_u32(8);
    let zero = kb.const_f32(0);
    let (iter, acc) = kb.for_range_acc(start, end, 1, zero);
    let next = acc.add(&mut kb, zero);
    let sum = kb.end_for_acc(iter, next);
    match &kb.get_nodes()[sum.0] {
        BNode::ForAccResult { begin_node } => assert_eq!(*begin_node, iter.0),
        other => panic!("{:?}", other),
    }
}

#[test]
fn tiles_are_chosen_and_named() {
    let cfg = TileGemmConfig {
        tile_m: 32,
        tile_n: 64,
        tile_k: 16,
        wgp_mode: false,
        split_k: 1,
        swap_grid: false,
    };
    let full = cfg.to_gemm_config();
    assert_eq!((full.tile_m, full.tile_n, full.tile_k), (32, 64, 16));
    assert!(!full.wgp_mode);
    assert_eq!(cfg.name(), full.name());
    let auto = TileGemmConfig::auto(1024, 1024, 1024);
    assert_eq!((auto.tile_m, auto.split_k), (128, 2));
}
