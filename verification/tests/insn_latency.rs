use t0_gpu::gemm_gen::{EpilogueOp, GemmConfig, GemmTranspose, generate};
use t0_gpu::insn_latency::{
    InsnClass, analyze_block, critical_path_cycles, ilp_terms, op_latency, valu_slots_per_vmem,
    valu_slots_per_wmma, wmma_valu_equivalent,
};
use t0_gpu::ir::{Op, Operand, SOperand, SReg, VReg, Width, WmmaFormat};

#[test]
fn test_valu_latency() {
    let op = Op::VAddF32 {
        dst: VReg(0),
        src0: Operand::VReg(VReg(1)),
        src1: Operand::VReg(VReg(2)),
    };
    let lat = op_latency(&op);
    assert_eq!(lat.class, InsnClass::VALU);
    assert_eq!(lat.issue, 1);
    assert_eq!(lat.result, 1);
}

#[test]
fn insn_latency_test_vmem_latency() {
    let op = Op::GlobalLoad {
        dst: VReg(0),
        addr: VReg(1),
        width: Width::B32,
        offset: 0,
    };
    let lat = op_latency(&op);
    assert_eq!(lat.class, InsnClass::VMEM);
    assert_eq!(lat.result, 490);
}

#[test]
fn insn_latency_test_wmma_latency() {
    let op = Op::Wmma {
        dst: VReg(0),
        a: VReg(8),
        b: VReg(16),
        c: VReg(0),
        format: WmmaFormat::BF16_F32,
    };
    let lat = op_latency(&op);
    assert_eq!(lat.class, InsnClass::WMMA);
    assert_eq!(lat.result, 36);
    assert_eq!(lat.issue, 1);
}

#[test]
fn test_vtrans_rcp() {
    let op = Op::VRcpF32 {
        dst: VReg(0),
        src: VReg(1),
    };
    let lat = op_latency(&op);
    assert_eq!(lat.class, InsnClass::VTRANS);
    assert_eq!(lat.result, 16);
    assert_eq!(lat.recip_throughput as f32, 4.0);
}

#[test]
fn test_valu_slots_computation() {
    assert_eq!(valu_slots_per_vmem(), 490);
    assert_eq!(valu_slots_per_wmma(), 36);
}

#[test]
fn test_analyze_empty_block() {
    let stats = analyze_block(&[]);
    assert_eq!(stats.valu_count, 0);
    assert_eq!(stats.total_issue_cycles, 0);
}

#[test]
fn test_critical_path_valu_chain() {
    // 4 VALU ops in a linear chain: critical path = 4 issue + 1 result
    let ops = vec![
        Op::VAddF32 { dst: VReg(1), src0: Operand::VReg(VReg(0)), src1: Operand::InlineFloat(1.0f32.to_bits()) },
        Op::VAddF32 { dst: VReg(2), src0: Operand::VReg(VReg(1)), src1: Operand::InlineFloat(2.0f32.to_bits()) },
        Op::VAddF32 { dst: VReg(3), src0: Operand::VReg(VReg(2)), src1: Operand::InlineFloat(3.0f32.to_bits()) },
        Op::VAddF32 { dst: VReg(4), src0: Operand::VReg(VReg(3)), src1: Operand::InlineFloat(4.0f32.to_bits()) },
    ];
    let path = critical_path_cycles(&ops);
    assert!(path >= 4, "critical path should be >= 4 for 4 VALU: got {}", path);
}

/// Analyze a real GEMM kernel's K-loop body to establish baseline metrics.
#[test]
fn test_gemm_kloop_analysis() {
    // Generate a typical GEMM kernel
    let cfg = GemmConfig {
        tile_m: 128, tile_n: 64, tile_k: 16, wg_size: 128,
        use_lds: true, double_buffer: true, split_k: None,
        lds_pad: 0, n_col_passes: 1, swap_grid: true,
        wgp_mode: true,
        transpose: GemmTranspose::NT,
        epilogue: EpilogueOp::StoreF32,
    };
    let kernel = generate(&cfg);

    // Find the K-loop body (between label "ggen_loop" and branch back)
    let mut loop_start = None;
    let mut loop_end = None;
    for (i, op) in kernel.ops().iter().enumerate() {
        if let Op::Label(name) = op {
            if name.starts_with("ggen_loop") { loop_start = Some(i + 1); }
        }
        if let Op::Branch(target) = op {
            if target.starts_with("ggen_loop") { loop_end = Some(i); }
        }
        // Also check BranchScc1 since the loop uses s_cmp_lt + branch_scc1
        if let Op::BranchScc1(target) = op {
            if target.starts_with("ggen_loop") { loop_end = Some(i); }
        }
    }

    let (start, end) = match (loop_start, loop_end) {
        (Some(s), Some(e)) if s < e => (s, e),
        _ => panic!("no K-loop found in GEMM kernel"),
    };

    let loop_body = &kernel.ops()[start..end];
    let stats = analyze_block(loop_body);
    let terms = ilp_terms(&stats);
    assert_eq!(terms.wmma_latency, stats.wmma_count * 36);
    assert_eq!(terms.vmem_latency, stats.vmem_load_count * 490);

    // Sanity checks
    assert!(stats.wmma_count > 0, "GEMM should have WMMA instructions");
    assert!(stats.vmem_load_count > 0, "GEMM should have VMEM loads");
    assert!(stats.lds_count > 0, "GEMM should have LDS ops");

    // Two buffers are multiplied per turn.
    assert_eq!(stats.wmma_count as usize, 2 * cfg.wmma_per_k_tile());
}

#[test]
fn statistics_count_every_operation_once() {
    let add = |d: u32, a: u32| Op::VAddF32 {
        dst: VReg(d),
        src0: Operand::VReg(VReg(a)),
        src1: Operand::VReg(VReg(a)),
    };
    let ops = vec![
        add(2, 1),
        add(3, 2),
        Op::GlobalLoad { dst: VReg(4), addr: VReg(1), width: Width::B32, offset: 0 },
        Op::GlobalStore { addr: VReg(1), src: VReg(3), width: Width::B32, offset: 0 },
        Op::SMov { dst: SReg(1), src: SOperand::InlineInt(0) },
        Op::Endpgm,
    ];
    let s = analyze_block(&ops);
    assert_eq!((s.valu_count, s.vmem_load_count, s.vmem_store_count), (2, 1, 1));
    assert_eq!((s.salu_count, s.ctrl_count, s.wmma_count, s.lds_count), (1, 1, 0, 0));
    assert_eq!(s.estimated_critical_path, critical_path_cycles(&ops));
}

#[test]
fn the_path_ends_with_the_latest_result() {
    let add = |d: u32, a: u32| Op::VAddF32 {
        dst: VReg(d),
        src0: Operand::VReg(VReg(a)),
        src1: Operand::VReg(VReg(a)),
    };
    let load = || Op::GlobalLoad { dst: VReg(1), addr: VReg(8), width: Width::B32, offset: 0 };
    let alone = critical_path_cycles(&[load()]);
    // short operations fit into the wait for a load
    assert_eq!(critical_path_cycles(&[load(), add(2, 0), add(3, 0)]), alone);
    // in front of it they delay it
    assert_eq!(critical_path_cycles(&[add(2, 0), add(3, 0), load()]), alone + 2);
    assert_eq!(critical_path_cycles(&[]), 0);
}

#[test]
fn terms_of_the_parallelism() {
    let mut s = analyze_block(&[]);
    s.wmma_count = 2;
    s.vmem_load_count = 3;
    s.valu_count = 10;
    s.vtrans_count = 5;
    let t = ilp_terms(&s);
    assert_eq!((t.wmma_latency, t.vmem_latency), (72, 1470));
    assert_eq!((t.wmma_filler, t.vmem_filler), (30, 102));
}
