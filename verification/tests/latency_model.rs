use t0_gpu::ir::{Op, Operand, VReg, Width, WmmaFormat};
use t0_gpu::latency_model::{
    Pipeline, WaitCounter, can_overlap_lds, can_overlap_vmem, estimate_cycles, op_latency,
};

// ── Simple VALU: latency=1, throughput=1 ──
#[test]
fn test_valu_simple_latency() {
    let op = Op::VAddF32 {
        dst: VReg(1),
        src0: Operand::VReg(VReg(2)),
        src1: Operand::VReg(VReg(3)),
    };
    let info = op_latency(&op);
    assert_eq!(info.pipeline, Pipeline::VALU);
    assert_eq!(info.latency, 1);
    assert_eq!(info.throughput, 1);
    assert!(!info.is_mem);
}

// ── Complex VALU: latency=2 (mul, fma are 2× simple) ──
#[test]
fn test_valu_complex_latency() {
    let mul = Op::VMulF32 { dst: VReg(1), src0: Operand::VReg(VReg(2)), src1: Operand::VReg(VReg(3)) };
    let fma = Op::VFmaF32 {
        dst: VReg(1),
        src0: Operand::VReg(VReg(2)),
        src1: Operand::VReg(VReg(3)),
        src2: Operand::VReg(VReg(4)),
    };
    assert_eq!(op_latency(&mul).latency, 2);
    assert_eq!(op_latency(&mul).throughput, 2);
    assert_eq!(op_latency(&fma).latency, 2);
    // mul/fma latency should be strictly greater than add
    let add = Op::VAddF32 { dst: VReg(1), src0: Operand::VReg(VReg(2)), src1: Operand::VReg(VReg(3)) };
    assert!(op_latency(&mul).latency > op_latency(&add).latency,
        "v_mul_f32 should have higher latency than v_add_f32");
}

// ── TRANS: same tier as simple VALU on GFX1100 ──
#[test]
fn test_trans_latency() {
    let op = Op::VRcpF32 { dst: VReg(1), src: VReg(2) };
    let info = op_latency(&op);
    assert_eq!(info.pipeline, Pipeline::TRANS);
    assert_eq!(info.latency, 1);
    assert_eq!(info.throughput, 1);
}

// ── VMEM: load=47, store=24, load > store ──
#[test]
fn latency_model_test_vmem_latency() {
    let load = Op::GlobalLoad { dst: VReg(1), addr: VReg(2), width: Width::B32, offset: 0 };
    let store = Op::GlobalStore { addr: VReg(2), src: VReg(1), width: Width::B32, offset: 0 };
    let load_info = op_latency(&load);
    let store_info = op_latency(&store);
    assert_eq!(load_info.pipeline, Pipeline::VMEM);
    assert_eq!(load_info.latency, 47);
    assert_eq!(store_info.latency, 24);
    assert!(load_info.latency > store_info.latency,
        "VMEM load should have higher latency than store");
    assert!(load_info.is_mem);
    assert_eq!(load_info.wait_counter, Some(WaitCounter::VMcnt));
    assert_eq!(store_info.wait_counter, Some(WaitCounter::VScnt));
}

// ── WMMA: 4 VALU-norm ──
#[test]
fn latency_model_test_wmma_latency() {
    let op = Op::Wmma {
        dst: VReg(0), a: VReg(8), b: VReg(16), c: VReg(24),
        format: WmmaFormat::BF16_F32,
    };
    let info = op_latency(&op);
    assert_eq!(info.pipeline, Pipeline::WMMA);
    assert_eq!(info.latency, 4);
    assert_eq!(info.throughput, 4);
}

// ── LDS: load=7, store=4, load > store (asymmetric) ──
#[test]
fn test_lds_load_store_asymmetric() {
    let load = Op::DsLoadB32 { dst: VReg(1), vaddr: VReg(0), offset: 0 };
    let store = Op::DsStoreB32 { vaddr: VReg(0), src: VReg(1), offset: 0 };
    let load_info = op_latency(&load);
    let store_info = op_latency(&store);
    assert_eq!(load_info.pipeline, Pipeline::LDS);
    assert_eq!(load_info.latency, 7);
    assert_eq!(store_info.latency, 4);
    assert!(load_info.latency > store_info.latency,
        "LDS load should have higher latency than store");
    assert!(load_info.is_mem);
    assert_eq!(load_info.wait_counter, Some(WaitCounter::LGKMcnt));
}

// ── CVT pack: bf16 packing is 4× simple VALU ──
#[test]
fn test_cvt_pack_latency() {
    let op = Op::CvtPkBf16F32 { dst: VReg(1), src0: VReg(2), src1: VReg(3) };
    let info = op_latency(&op);
    assert_eq!(info.latency, 4);
    assert_eq!(info.throughput, 4);
}

#[test]
fn test_estimate_cycles() {
    let ops = vec![
        Op::GlobalLoad { dst: VReg(1), addr: VReg(2), width: Width::B32, offset: 0 },
        Op::WaitVmcnt(0),
        Op::VAddF32 { dst: VReg(3), src0: Operand::VReg(VReg(1)), src1: Operand::InlineFloat(1.0f32.to_bits()) },
        Op::VMulF32 { dst: VReg(4), src0: Operand::VReg(VReg(3)), src1: Operand::InlineFloat(2.0f32.to_bits()) },
        Op::GlobalStore { addr: VReg(2), src: VReg(4), width: Width::B32, offset: 0 },
        Op::Endpgm,
    ];

    let (total, breakdown) = estimate_cycles(&ops);
    assert_eq!(breakdown.vmem_count, 2); // 1 load + 1 store
    assert_eq!(breakdown.valu_cycles, 3); // add(1) + mul(2)
    assert!(total > 0);
    // Additive model: 3 VALU + 2 VMEM = 3 + (47+24) = 74 + ctrl
    // VMEM: load(47) + store(24) = 71, total = 71 + 3 = 74
    assert!(total >= 70, "VMEM should dominate: {}", total);
}

#[test]
fn test_can_overlap() {
    let valu = Op::VAddF32 { dst: VReg(1), src0: Operand::VReg(VReg(2)), src1: Operand::InlineFloat(1.0f32.to_bits()) };
    let load = Op::GlobalLoad { dst: VReg(1), addr: VReg(2), width: Width::B32, offset: 0 };

    assert!(can_overlap_vmem(&valu));
    assert!(!can_overlap_vmem(&load));
}

#[test]
fn estimates_are_sums() {
    let add = || Op::VAddF32 {
        dst: VReg(0),
        src0: Operand::VReg(VReg(1)),
        src1: Operand::VReg(VReg(2)),
    };
    let load = || Op::GlobalLoad { dst: VReg(0), addr: VReg(1), width: Width::B32, offset: 0 };
    let one = estimate_cycles(&[add()]).0;
    let other = estimate_cycles(&[load(), Op::Endpgm]).0;
    let (both, parts) = estimate_cycles(&[add(), load(), Op::Endpgm]);
    assert_eq!(both, one + other);
    assert_eq!((parts.vmem_count, parts.ctrl_count, parts.lds_count), (1, 1, 0));
    assert_eq!(
        parts.to_text(),
        format!("VALU:{} TRANS:0 SALU:0 WMMA:0 VMEM:×1 LDS:×0 CTRL:×1", parts.valu_cycles)
    );
    assert_eq!(estimate_cycles(&[]).0, 0);
}

#[test]
fn accesses_wait_on_their_counter() {
    let load = Op::GlobalLoad { dst: VReg(0), addr: VReg(1), width: Width::B32, offset: 0 };
    let info = op_latency(&load);
    assert_eq!(info.wait_counter, Some(WaitCounter::VMcnt));
    assert!(info.is_mem);
    assert!(!can_overlap_vmem(&load) && !can_overlap_lds(&load));
}
