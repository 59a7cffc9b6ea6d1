use t0_gpu::compile::{CompileOptions, LowerError, T0Kernel};
use t0_gpu::ir::{Alignment, ArgKind, Op, SOperand, SReg, Target, VReg, Width};
use t0_gpu::opt_passes::Passes;
use t0_gpu::regalloc::AllocError;

#[test]
fn test_simple_kernel_assembly() {
    let mut k = T0Kernel::new("test_nop");
    k.endpgm();

    let text = k.to_assembly(Target::GFX1100).unwrap();
    assert!(text.contains("s_endpgm"));
    assert!(text.contains(".amdhsa_kernel test_nop"));
    assert!(text.contains("gfx1100"));
}

#[test]
fn test_elementwise_scale_kernel() {
    // Build: y[i] = x[i] * scale
    let mut k = T0Kernel::new("t0_scale");

    // Args
    let x_ptr = k.arg_ptr("x");
    let y_ptr = k.arg_ptr("y");
    let scale_arg = k.arg_f32("scale");
    let n_arg = k.arg_u32("n");

    // Load all args from kernarg segment
    k.emit_arg_loads();

    // tid = v0 (WORKITEM_ID_X), compute global_id
    let tid = k.alloc_vreg();
    k.v_and_b32_imm(tid, VReg(0), 31);

    // Load x[tid]
    let addr = k.alloc_vreg_array(2, Alignment::Align2);
    let val = k.alloc_vreg();

    // addr = x_ptr + tid * 4
    let offset = k.alloc_vreg();
    k.v_lshlrev_b32(offset, 2, tid);
    k.v_mov_from_sgpr(addr, SReg(x_ptr.0));
    k.v_mov_from_sgpr(VReg(addr.0 + 1), SReg(x_ptr.0 + 1));
    k.v_add_co(addr, addr, offset);
    k.v_add_co_ci(VReg(addr.0 + 1), VReg(addr.0 + 1));

    k.global_load(val, addr, Width::B32, 0);
    k.wait_vmcnt(0);

    // val *= scale
    let sv = k.alloc_vreg();
    k.v_mov_from_sgpr(sv, SReg(scale_arg.0));
    k.v_mul_f32(val, val, sv);

    // Store to y[tid]
    let yaddr = k.alloc_vreg_array(2, Alignment::Align2);
    k.v_mov_from_sgpr(yaddr, SReg(y_ptr.0));
    k.v_mov_from_sgpr(VReg(yaddr.0 + 1), SReg(y_ptr.0 + 1));
    k.v_add_co(yaddr, yaddr, offset);
    k.v_add_co_ci(VReg(yaddr.0 + 1), VReg(yaddr.0 + 1));
    k.global_store(yaddr, val, Width::B32, 0);

    k.wait_vscnt(0);
    k.endpgm();

    let text = k.to_assembly(Target::GFX1100).unwrap();
    assert!(text.contains("global_load_b32"));
    assert!(text.contains("v_mul_f32"));
    assert!(text.contains("global_store_b32"));
}

#[test]
fn kernels_without_an_end_are_refused() {
    let k = T0Kernel::new("open");
    let e = k.validate().err().unwrap();
    assert_eq!(e, "[T0 validate] Kernel 'open' missing s_endpgm — GPU will hang!");
    assert!(matches!(k.lower(&CompileOptions::default()), Err(LowerError::Invalid(_))));
    assert_eq!(k.to_assembly(Target::GFX1100).err().unwrap(), e);
}

#[test]
fn masks_must_be_restored() {
    let mut k = T0Kernel::new("mask");
    let saved = k.alloc_sreg();
    k.save_exec(saved);
    k.endpgm();
    assert_eq!(
        k.validate().err().unwrap(),
        "[T0 validate] Kernel 'mask' has 1 SaveExec but 0 RestoreExec — EXEC mask will be corrupted!"
    );
    let mut k = T0Kernel::new("mask");
    let saved = k.alloc_sreg();
    k.save_exec(saved);
    k.restore_exec(saved);
    k.endpgm();
    assert!(k.validate().is_ok());
}

#[test]
fn too_many_registers_are_refused() {
    let mut k = T0Kernel::new("wide");
    let base = k.alloc_vreg_array(300, Alignment::Align1);
    for i in 0..300 {
        k.v_mov_imm(VReg(base.0 + i), 1);
    }
    k.endpgm();
    k.set_skip_optimize(true);
    k.set_ssa_regalloc(false);
    let e = k.lower(&CompileOptions::default()).err().unwrap();
    assert!(matches!(e, LowerError::Registers(AllocError::OutOfVgprs)));
    assert_eq!(e.to_text("wide"), "Kernel 'wide' needs more than 254 vector registers");

    let mut k = T0Kernel::new("many");
    for _ in 0..120 {
        let s = k.alloc_sreg();
        k.s_mov_imm(s, 1);
    }
    k.endpgm();
    k.set_skip_optimize(true);
    let e = k.lower(&CompileOptions::default()).err().unwrap();
    assert!(matches!(e, LowerError::Registers(AllocError::OutOfSgprs)));
}

#[test]
fn operations_that_cannot_be_written_are_refused() {
    let mut k = T0Kernel::new("odd");
    let base = k.arg_ptr("x");
    let s = k.alloc_sreg();
    k.scalar_load(s, base, 0, Width::B16);
    k.endpgm();
    k.set_skip_optimize(true);
    let e = k.lower(&CompileOptions::default()).err().unwrap();
    assert!(matches!(e, LowerError::NotEncodable(_)));
    assert_eq!(e.to_text("odd"), "Kernel 'odd' has an operation that cannot be encoded");
    assert_eq!(
        LowerError::TooLong.to_text("odd"),
        "Kernel 'odd' has too many operations"
    );
}

#[test]
fn arguments_are_packed() {
    let mut k = T0Kernel::new("args");
    let _x = k.arg_ptr("x");
    let _n = k.arg_u32("n");
    let _y = k.arg_ptr("y");
    let _s = k.arg_f32("s");
    assert_eq!(k.kernarg_size(), 24);
    let offsets: Vec<u32> = k.args().iter().map(|a| a.offset).collect();
    assert_eq!(offsets, [0, 8, 12, 20]);
    assert!(matches!(k.args()[0].kind, ArgKind::Ptr));
    k.emit_arg_loads();
    assert_eq!(k.ops().len(), 5);
    assert!(matches!(k.ops()[4], Op::WaitLgkmcnt(0)));
    assert!(matches!(k.ops()[1], Op::ScalarLoad { offset: 8, width: Width::B32, .. }));
    assert!(matches!(k.ops()[2], Op::ScalarLoad { offset: 12, width: Width::B64, .. }));
}

#[test]
fn labels_differ() {
    let mut k = T0Kernel::new("labels");
    let a = k.make_label("loop");
    let b = k.make_label("loop");
    assert_eq!(a, "loop_0");
    assert_eq!(b, "loop_1");
}

#[test]
fn registers_of_a_group_follow_each_other() {
    let mut k = T0Kernel::new("group");
    let x = k.alloc_vreg();
    let pair = k.alloc_vreg_array(2, Alignment::Align2);
    k.v_mov_imm(x, 1);
    k.v_mov_imm(pair, 2);
    k.v_mov_imm(VReg(pair.0 + 1), 3);
    k.endpgm();
    k.set_skip_optimize(true);
    let l = k.lower(&CompileOptions::default()).ok().unwrap();
    let (a, b) = (l.alloc.phys_v(pair), l.alloc.phys_v(VReg(pair.0 + 1)));
    assert_eq!(a % 2, 0);
    assert_eq!(b, a + 1);
    assert!(l.alloc.phys_v(x) != a && l.alloc.phys_v(x) != b);
    // the thread number keeps the first register
    assert!(l.alloc.phys_v(x) >= 1);
    assert_eq!(l.alloc.find_v(VReg(9999)), None);
}

#[test]
fn bounds_are_checked_between_begin_and_end() {
    let mut k = T0Kernel::new("bounds");
    let id = k.compute_global_id_x(256);
    assert_eq!(k.wg_size(), 256);
    let n = k.alloc_vreg();
    let saved = k.bounds_check_begin(id, n);
    k.bounds_check_end(saved);
    k.endpgm();
    assert!(k.validate().is_ok());
    let last = k.ops().len() - 2;
    assert!(matches!(k.ops()[last], Op::RestoreExec { .. }));
}

#[test]
fn optimization_can_be_switched_off() {
    let mut k = T0Kernel::new("merge");
    let addr = k.alloc_vreg_array(2, Alignment::Align2);
    let dst = k.alloc_vreg_array(2, Alignment::Align2);
    k.global_load(dst, addr, Width::B32, 0);
    k.global_load(VReg(dst.0 + 1), addr, Width::B32, 4);
    k.endpgm();
    let passes = Passes { schedule: false, ..Passes::default() };
    let off = CompileOptions { opt_level: 0, passes, delay_alu: false };
    assert_eq!(k.lower(&off).ok().unwrap().ops.len(), 3);
    let on = k.lower(&CompileOptions::default()).ok().unwrap();
    assert!(matches!(on.ops[0], Op::GlobalLoad { width: Width::B64, .. }));
    assert_eq!(on.ops.len(), 2);
}

#[test]
fn waits_that_wait_for_nothing_are_left_out() {
    let mut k = T0Kernel::new("wait");
    let addr = k.alloc_vreg_array(2, Alignment::Align2);
    let x = k.alloc_vreg();
    let y = k.alloc_vreg();
    k.global_load(x, addr, Width::B32, 0);
    k.wait_vmcnt(0);
    k.wait_vmcnt(0);
    k.v_add_f32(y, x, x);
    k.global_store(addr, y, Width::B32, 0);
    k.endpgm();
    k.set_skip_optimize(true);
    let text = k.to_assembly(Target::GFX1100).unwrap();
    assert_eq!(text.matches("s_waitcnt vmcnt(0)").count(), 1);
    let load = text.find("global_load_b32").unwrap();
    let wait = text.find("s_waitcnt vmcnt(0)").unwrap();
    let use_at = text.find("v_add_f32").unwrap();
    assert!(load < wait && wait < use_at);
}

#[test]
fn every_access_to_the_data_share_is_waited_for() {
    let kinds: [fn(&mut T0Kernel, VReg, VReg); 5] = [
        |k, a, b| k.push(Op::DsLoadU16 { dst: a, vaddr: b, offset: 0 }),
        |k, a, b| k.push(Op::DsLoadU16D16 { dst: a, vaddr: b, offset: 0 }),
        |k, a, b| k.push(Op::DsLoadU16D16Hi { dst: a, vaddr: b, offset: 0 }),
        |k, a, b| k.push(Op::LdsStore {
            addr: b,
            src: a,
            width: Width::B32,
            offset: 0,
        }),
        |k, a, b| k.push(Op::LdsLoad { dst: a, addr: b, width: Width::B32, offset: 0 }),
    ];
    for access in kinds {
        let mut k = T0Kernel::new("share");
        let a = k.alloc_vreg();
        let b = k.alloc_vreg();
        access(&mut k, a, b);
        k.wait_lgkmcnt(0);
        k.wait_lgkmcnt(0);
        k.endpgm();
        k.set_skip_optimize(true);
        let text = k.to_assembly(Target::GFX1100).unwrap();
        assert_eq!(text.matches("  s_waitcnt lgkmcnt(0)\n").count(), 1, "{}", text);
    }
    let mut k = T0Kernel::new("scalar");
    let dst = k.alloc_sreg();
    let base = k.alloc_sreg_pair();
    k.push(Op::SMemLoadDword {
        dst,
        base_lo: SReg(base.0),
        base_hi: SReg(base.0 + 1),
        offset: 0,
    });
    k.wait_lgkmcnt(0);
    k.endpgm();
    k.set_skip_optimize(true);
    let text = k.to_assembly(Target::GFX1100).unwrap();
    assert_eq!(text.matches("s_waitcnt lgkmcnt(0)").count(), 1);
}

#[test]
fn atomics_are_waited_for() {
    let mut k = T0Kernel::new("atomic");
    let addr = k.alloc_vreg_array(2, Alignment::Align2);
    let x = k.alloc_vreg();
    k.push(Op::GlobalAtomicAddF32 { addr, src: x, offset: 0 });
    k.wait_vmcnt(0);
    k.endpgm();
    k.set_skip_optimize(true);
    let text = k.to_assembly(Target::GFX1100).unwrap();
    assert_eq!(text.matches("s_waitcnt vmcnt(0)").count(), 1);
}

#[test]
fn the_end_of_the_program_comes_last() {
    let mut k = T0Kernel::new("late");
    k.endpgm();
    k.barrier();
    let e = k.validate().err().unwrap();
    assert_eq!(e, "[T0 validate] Kernel 'late' missing s_endpgm — GPU will hang!");
    k.endpgm();
    assert!(k.validate().is_ok());
}

#[test]
fn small_arguments_need_room_for_one_register() {
    let mut k = T0Kernel::new("args");
    let a = k.arg_u32("a");
    let b = k.arg_f32("b");
    assert_eq!((a, b), (SReg(0), SReg(1)));
    assert_eq!(k.kernarg_size(), 8);
}

#[test]
fn address_pairs_have_groups_of_their_own() {
    let mut k = T0Kernel::new("pairs");
    let before = k.alloc_vreg();
    let (lo, hi) = k.alloc_addr_pair();
    let (lo2, hi2) = k.alloc_addr_pair();
    assert_eq!(hi.0, lo.0 + 1);
    assert_eq!(hi2.0, lo2.0 + 1);
    assert!(before.0 < lo.0 && hi.0 < lo2.0);
    let groups = k.coalesced_groups().to_vec();
    assert_eq!(groups.len(), 2);
    assert_eq!((groups[0].base_vreg, groups[0].count), (lo, 2));
    assert_eq!((groups[1].base_vreg, groups[1].count), (lo2, 2));
    assert_ne!(groups[0].id, groups[1].id);
    let offset = k.alloc_vreg();
    k.addr64_add(lo, hi, offset);
    assert_eq!(k.ops().len(), 2);
}

#[test]
fn transposing_takes_three_scratch_registers() {
    let mut k = T0Kernel::new("turn");
    let dst = k.alloc_vreg_array(8, Alignment::Align8);
    let src = k.alloc_vreg_array(8, Alignment::Align8);
    let tmp = k.alloc_vreg_array(3, Alignment::Align1);
    k.reg_transpose_c_to_ab(dst, src, tmp);
    assert_eq!(k.ops().len(), 42);
    for op in k.ops() {
        for v in op.vreg_defs() {
            let in_dst = dst.0 <= v.0 && v.0 < dst.0 + 8;
            let in_tmp = tmp.0 <= v.0 && v.0 < tmp.0 + 3;
            assert!(in_dst || in_tmp, "{:?}", op);
        }
    }
    k.endpgm();
    assert!(k.to_assembly(Target::GFX1100).is_ok());
}

#[test]
fn registers_whose_life_is_over_are_used_again() {
    let build = || {
        let mut k = T0Kernel::new("chain");
        let addr = k.alloc_vreg_array(2, Alignment::Align2);
        for i in 0..200u32 {
            let pair = k.alloc_vreg_array(2, Alignment::Align2);
            k.v_mov_imm(pair, 100 + i as i32);
            k.v_mov_imm(VReg(pair.0 + 1), i as i32);
            k.global_store(addr, pair, Width::B64, 0);
        }
        k.endpgm();
        k.set_skip_optimize(true);
        k
    };
    let k = build();
    let lowered = k.lower(&CompileOptions::default()).ok().unwrap();
    assert_eq!(lowered.alloc.total_vgprs, 6);
    // the address lives throughout, and each pair only for its store
    assert_eq!(lowered.alloc.phys_v(VReg(1)), 2);
    assert_eq!(lowered.alloc.phys_v(VReg(3)), 4);
    assert_eq!(lowered.alloc.phys_v(VReg(5)), 4);
    assert_eq!(lowered.alloc.phys_v(VReg(6)), 5);
    // with a place for each there are too few
    let mut k = build();
    k.set_ssa_regalloc(false);
    let e = k.lower(&CompileOptions::default()).err().unwrap();
    assert!(matches!(e, LowerError::Registers(AllocError::OutOfVgprs)));
}

#[test]
fn loops_are_lived_through() {
    let mut k = T0Kernel::new("looped");
    let addr = k.alloc_vreg_array(2, Alignment::Align2);
    let a = k.alloc_vreg();
    let b = k.alloc_vreg();
    let c = k.alloc_vreg();
    let head = k.make_label("again");
    k.push(Op::Label(head.clone()));
    // the first operation of the loop reads what the last one of the round before wrote
    k.global_store(addr, a, Width::B32, 0);
    k.v_mov_imm(b, 1);
    k.global_store(addr, b, Width::B32, 4);
    k.v_mov_imm(a, 2);
    k.push(Op::BranchScc1(head));
    k.v_mov_imm(c, 3);
    k.global_store(addr, c, Width::B32, 8);
    k.endpgm();
    k.set_skip_optimize(true);
    let alloc = k.lower(&CompileOptions::default()).ok().unwrap().alloc;
    assert_ne!(alloc.phys_v(a), alloc.phys_v(b));
    // behind the loop its registers are free
    assert_eq!(alloc.phys_v(c), alloc.phys_v(a));
}

#[test]
fn common_subexpressions_can_be_kept() {
    let build = |skip: bool| {
        let mut k = T0Kernel::new("common");
        let addr = k.alloc_vreg_array(2, Alignment::Align2);
        let x = k.alloc_vreg();
        let a = k.alloc_vreg();
        let b = k.alloc_vreg();
        k.global_load(x, addr, Width::B32, 0);
        k.wait_vmcnt(0);
        k.v_add_f32(a, x, x);
        k.v_add_f32(b, x, x);
        k.global_store(addr, a, Width::B32, 0);
        k.global_store(addr, b, Width::B32, 8);
        k.endpgm();
        k.set_skip_cse(skip);
        let lowered = k.lower(&CompileOptions::default()).ok().unwrap();
        lowered.ops.iter().filter(|op| matches!(op, Op::VAddF32 { .. })).count()
    };
    assert_eq!(build(true), 2);
    assert_eq!(build(false), 1);
}

#[test]
fn registers_spill_to_the_local_data_share() {
    // three hundred values that are all needed at the end
    let mut k = T0Kernel::new("spilling");
    let addr = k.alloc_vreg_array(2, Alignment::Align2);
    let regs: Vec<VReg> = (0..300).map(|_| k.alloc_vreg()).collect();
    for (i, r) in regs.iter().enumerate() {
        k.v_mov_imm(*r, i as i32);
    }
    for r in &regs {
        k.global_store(addr, *r, Width::B32, 0);
    }
    k.endpgm();
    k.set_skip_optimize(true);
    k.set_wg_size(64);
    let before = k.lds_size();
    let lowered = k.lower(&CompileOptions::default()).ok().unwrap();
    assert!(lowered.alloc.total_vgprs <= 254);
    // the sixty-four that are idle for longest have a slot of four bytes for each thread
    assert_eq!(lowered.lds_size, before + 64 * 4 * 64);
    let stores = lowered.ops.iter().filter(|op| matches!(op, Op::DsStoreB32 { .. })).count();
    let loads = lowered.ops.iter().filter(|op| matches!(op, Op::DsLoadB32 { .. })).count();
    assert_eq!((stores, loads), (64, 64));
    assert!(matches!(lowered.ops[0], Op::VLshlrevB32 { shift: 2, src: VReg(0), .. }));
    // each is stored behind its definition and loaded in front of its use, from its own slot
    let mut slots = std::collections::HashSet::new();
    for (i, op) in lowered.ops.iter().enumerate() {
        if let Op::DsStoreB32 { src, offset, .. } = op {
            assert!(matches!(&lowered.ops[i - 1], Op::VMov { dst, .. } if dst == src));
            assert!(slots.insert(*offset));
            assert_eq!(*offset as u32 % 256, before % 256);
        }
        if let Op::DsLoadB32 { dst, offset, .. } = op {
            assert!(slots.contains(offset));
            assert!(matches!(lowered.ops[i + 1], Op::WaitLgkmcnt(0)));
            assert!(matches!(&lowered.ops[i + 2], Op::GlobalStore { src, .. } if src == dst));
        }
    }
    let (text, size) = k.to_assembly_with_info(Target::GFX1100).unwrap();
    assert!(text.contains("ds_store_b32"));
    assert_eq!(size, lowered.lds_size);
    assert_eq!(k.to_assembly(Target::GFX1100).unwrap(), text);
}

#[test]
fn arrays_spill_as_a_whole() {
    let mut k = T0Kernel::new("array");
    let base = k.alloc_vreg_array(300, Alignment::Align1);
    let addr = k.alloc_vreg_array(2, Alignment::Align2);
    for i in 0..300 {
        k.v_mov_imm(VReg(base.0 + i), i as i32);
    }
    for i in 0..300 {
        k.global_store(addr, VReg(base.0 + i), Width::B32, 0);
    }
    k.endpgm();
    k.set_skip_optimize(true);
    k.set_wg_size(32);
    let lowered = k.lower(&CompileOptions::default()).ok().unwrap();
    assert_eq!(lowered.lds_size, k.lds_size() + 300 * 4 * 32);
    assert!(lowered.alloc.total_vgprs < 16);
    // where the slots do not fit there are too few registers
    k.set_wg_size(256);
    let e = k.lower(&CompileOptions::default()).err().unwrap();
    assert!(matches!(e, LowerError::Registers(AllocError::OutOfVgprs)));
}

#[test]
fn loads_are_waited_for_before_they_are_spilled() {
    let mut k = T0Kernel::new("loading");
    let addr = k.alloc_vreg_array(2, Alignment::Align2);
    let regs: Vec<VReg> = (0..300).map(|_| k.alloc_vreg()).collect();
    for r in &regs {
        k.global_load(*r, addr, Width::B32, 0);
    }
    k.wait_vmcnt(0);
    for r in &regs {
        k.global_store(addr, *r, Width::B32, 0);
    }
    k.endpgm();
    k.set_skip_optimize(true);
    k.set_wg_size(32);
    let lowered = k.lower(&CompileOptions::default()).ok().unwrap();
    let mut spilled = 0;
    for (i, op) in lowered.ops.iter().enumerate() {
        if matches!(op, Op::DsStoreB32 { .. }) {
            assert!(matches!(lowered.ops[i - 1], Op::WaitVmcnt(0)));
            assert!(matches!(lowered.ops[i - 2], Op::GlobalLoad { .. }));
            spilled += 1;
        }
    }
    assert_eq!(spilled, 64);
}

#[test]
fn marked_groups_stay_consecutive() {
    let build = |mark: bool| {
        let mut k = T0Kernel::new("marked");
        let addr = k.alloc_vreg_array(2, Alignment::Align2);
        let a = k.alloc_vreg();
        let b = k.alloc_vreg_array(2, Alignment::Align2);
        k.v_mov_imm(a, 1);
        k.v_mov_imm(b, 2);
        k.v_mov_imm(VReg(b.0 + 1), 3);
        k.global_store(addr, a, Width::B32, 0);
        k.global_store(addr, b, Width::B64, 4);
        k.endpgm();
        k.set_skip_optimize(true);
        if mark {
            // a pair across two declarations, the second of which has to be aligned
            k.mark_coalesced_group(a, 2);
        }
        k.mark_coalesced_group(b, 2);
        k
    };
    let k = build(false);
    let lowered = k.lower(&CompileOptions::default()).ok().unwrap();
    let b = k.coalesced_groups()[0].base_vreg;
    assert_eq!(lowered.alloc.phys_v(VReg(b.0 + 1)), lowered.alloc.phys_v(b) + 1);
    let e = build(true).lower(&CompileOptions::default()).err().unwrap();
    assert!(matches!(e, LowerError::Scattered(0, _)));
    assert_eq!(e.to_text("marked"), "Kernel 'marked' cannot keep coalesced group 0 consecutive");
}

#[test]
fn marked_registers_are_not_removed() {
    let mut k = T0Kernel::new("kept");
    let addr = k.alloc_vreg_array(2, Alignment::Align2);
    let pair = k.alloc_vreg_array(2, Alignment::Align2);
    let lone = k.alloc_vreg();
    k.v_mov_imm(pair, 1);
    k.v_mov_imm(VReg(pair.0 + 1), 2);
    k.v_mov_imm(lone, 3);
    k.global_store(addr, pair, Width::B32, 0);
    k.endpgm();
    let count = |k: &T0Kernel| k.lower(&CompileOptions::default()).ok().unwrap().ops.len();
    assert_eq!(count(&k), 3);
    k.mark_coalesced_group(pair, 2);
    assert_eq!(count(&k), 4);
}

#[test]
fn passes_can_be_switched_off_one_by_one() {
    let mut k = T0Kernel::new("switches");
    let addr = k.alloc_vreg_array(2, Alignment::Align2);
    let a = k.alloc_vreg();
    let dead = k.alloc_vreg();
    k.v_mov_imm(a, 2);
    k.v_add_u32(a, a, a);
    k.v_mov_imm(dead, 7);
    k.global_store(addr, a, Width::B32, 0);
    k.endpgm();
    let ops = |passes: Passes| {
        let options = CompileOptions { passes, ..CompileOptions::default() };
        k.lower(&options).ok().unwrap().ops
    };
    let adds = |ops: &Vec<Op>| ops.iter().filter(|o| matches!(o, Op::VAddU32 { .. })).count();
    assert_eq!(adds(&ops(Passes::default())), 0);
    assert_eq!(adds(&ops(Passes { fold: false, ..Passes::default() })), 1);
    let all = ops(Passes::default()).len();
    assert_eq!(ops(Passes { dead: false, ..Passes::default() }).len(), all + 1);
}

#[test]
fn copies_of_unrolled_loops_share_registers() {
    // thirteen loops, each with seven registers of its own in each of its four copies
    let mut k = T0Kernel::new("loops");
    let addr = k.alloc_vreg_array(2, Alignment::Align2);
    let (i, end) = (k.alloc_sreg(), k.alloc_sreg());
    k.s_mov_imm(end, 8);
    for _ in 0..13 {
        let x = k.alloc_vreg();
        let sums: Vec<VReg> = (0..6).map(|_| k.alloc_vreg()).collect();
        k.s_mov_imm(i, 0);
        let (head, exit) = (k.make_label("loop"), k.make_label("end_loop"));
        k.push(Op::Label(head.clone()));
        k.push(Op::SCmpGeU32 { src0: i, src1: end });
        k.push(Op::BranchScc1(exit.clone()));
        k.global_load(x, addr, Width::B32, 0);
        k.wait_vmcnt(0);
        let mut last = x;
        for s in &sums {
            k.v_add_f32(*s, last, x);
            k.global_store(addr, *s, Width::B32, 8);
            last = *s;
        }
        k.push(Op::SAddU32 { dst: i, src0: i, src1: SOperand::InlineInt(1) });
        k.push(Op::Branch(head));
        k.push(Op::Label(exit));
    }
    k.endpgm();
    let lowered = k.lower(&CompileOptions::default()).ok().unwrap();
    let names: std::collections::HashSet<u32> =
        lowered.ops.iter().flat_map(|op| op.vreg_refs()).map(|v| v.0).collect();
    assert!(names.len() > 254);
    assert!(lowered.alloc.total_vgprs < 64);
    assert_eq!(lowered.lds_size, k.lds_size());
}
