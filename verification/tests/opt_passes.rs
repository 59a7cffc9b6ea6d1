use std::collections::HashSet;

use t0_gpu::combine::combine;
use t0_gpu::compile::CoalescedGroup;
use t0_gpu::fold::{fold_constants, remove_dead};
use t0_gpu::ir::{Op, Operand, SOperand, SReg, VReg, Width};
use t0_gpu::loops::{hoist_invariants, strength_reduce};
use t0_gpu::opt_passes::{
    OptConfig, Passes, coalesce_loads, detect_loops, is_safe_to_unroll, loop_unroll,
    max_vreg_in_ops, optimize, post_regalloc_schedule, rename_op_vregs, software_pipeline,
    unroll_factor,
};
use t0_gpu::simplify::{propagate_copies, simplify};
use t0_gpu::subexpr::remove_common;
use t0_gpu::waits::remove_idle_waits;

// ═══════════════════════════════════════════
//  Loop Unrolling tests
// ═══════════════════════════════════════════

/// Helper: build a counted loop in canonical Op IR form.
/// SMov iter=start → SMov end=end_val → Label(header) → SCmpGeU32 → BranchScc1(exit)
/// → body → SAddU32(iter, iter, step) → Branch(header) → Label(exit)
fn make_counted_loop(body: Vec<Op>, start: i32, end_val: i32, step: i32) -> Vec<Op> {
    let iter_s = SReg(100);
    let end_s  = SReg(101);
    let mut ops = vec![
        Op::SMov { dst: iter_s, src: SOperand::InlineInt(start) },
        Op::SMov { dst: end_s,  src: SOperand::InlineInt(end_val) },
        Op::Label("loop_0".to_string()),
        Op::SCmpGeU32 { src0: iter_s, src1: end_s },
        Op::BranchScc1("end_loop_0".to_string()),
    ];
    ops.extend(body);
    ops.push(Op::SAddU32 { dst: iter_s, src0: iter_s, src1: SOperand::InlineInt(step) });
    ops.push(Op::Branch("loop_0".to_string()));
    ops.push(Op::Label("end_loop_0".to_string()));
    ops.push(Op::Endpgm);
    ops
}

#[test]
fn test_unroll_basic() {
    // Simple loop: 2 ops in body (≤16 → ×4 unroll)
    // 4 iterations with step=1 → body should be replicated 4 times
    let body = vec![
        Op::VAddF32 { dst: VReg(3), src0: Operand::VReg(VReg(1)), src1: Operand::VReg(VReg(2)) },
        Op::GlobalStore { addr: VReg(10), src: VReg(3), width: Width::B32, offset: 0 },
    ];
    let ops = make_counted_loop(body, 0, 8, 1);
    let original_len = ops.len();

    let (result, unrolled) = loop_unroll(ops);
    assert_eq!(unrolled, 1, "should unroll 1 loop");
    // Original: 2 body ops + 1 latch = 3 per iteration
    // Unrolled ×4: (2 body + 1 latch) × 4 = 12 body ops
    // Total should be larger than original
    assert!(result.len() > original_len,
        "unrolled code ({} ops) should be longer than original ({} ops)",
        result.len(), original_len);

    // Count how many VAddF32 ops exist (should be 4 copies)
    let add_count = result.iter().filter(|op| matches!(op, Op::VAddF32 { .. })).count();
    assert_eq!(add_count, 4, "×4 unroll should produce 4 copies of VAddF32");

    // Count SAddU32 (iter increments) — should be 4
    let sadd_count = result.iter().filter(|op| matches!(op, Op::SAddU32 { .. })).count();
    assert_eq!(sadd_count, 4, "×4 unroll should produce 4 iter increments");
}

#[test]
fn test_unroll_remainder() {
    // Body has 2 ops → ×4 unroll factor
    // The loop itself doesn't change trip count at IR level,
    // but the structure should still be valid
    let body = vec![
        Op::VMulF32 { dst: VReg(5), src0: Operand::VReg(VReg(1)), src1: Operand::VReg(VReg(2)) },
        Op::VAddF32 { dst: VReg(6), src0: Operand::VReg(VReg(5)), src1: Operand::InlineFloat(1.0f32.to_bits()) },
    ];
    let ops = make_counted_loop(body, 0, 7, 1);

    let (result, unrolled) = loop_unroll(ops);
    assert_eq!(unrolled, 1, "should unroll the loop");

    // Verify that copied VAddF32 ops have different dst VRegs (renamed)
    let add_dsts: Vec<u32> = result.iter().filter_map(|op| {
        if let Op::VAddF32 { dst, .. } = op { Some(dst.0) } else { None }
    }).collect();
    assert_eq!(add_dsts.len(), 4, "×4 unroll should produce 4 VAddF32 copies");
    // At least some should be renamed (different dst)
    let unique_dsts: HashSet<u32> = add_dsts.iter().copied().collect();
    assert!(unique_dsts.len() > 1,
        "unrolled copies should have renamed VRegs, got: {:?}", add_dsts);
}

#[test]
fn test_unroll_skip_barrier() {
    // Loop body contains Barrier → should NOT unroll
    let body = vec![
        Op::VAddF32 { dst: VReg(3), src0: Operand::VReg(VReg(1)), src1: Operand::VReg(VReg(2)) },
        Op::Barrier,
        Op::GlobalStore { addr: VReg(10), src: VReg(3), width: Width::B32, offset: 0 },
    ];
    let ops = make_counted_loop(body, 0, 8, 1);
    let original_len = ops.len();

    let (result, unrolled) = loop_unroll(ops);
    assert_eq!(unrolled, 0, "should NOT unroll loop with Barrier");
    assert_eq!(result.len(), original_len, "op list should be unchanged");
}

// ═══════════════════════════════════════════
//  Software Pipelining tests
// ═══════════════════════════════════════════

#[test]
fn test_sw_pipeline_basic() {
    // Loop: load → wait → compute → store
    // After pipelining: prologue loads + reordered body (wait→compute→store→load)
    let body = vec![
        Op::GlobalLoad { dst: VReg(3), addr: VReg(20), width: Width::B32, offset: 0 },
        Op::WaitVmcnt(0),
        Op::VAddF32 { dst: VReg(4), src0: Operand::VReg(VReg(3)), src1: Operand::InlineFloat(1.0f32.to_bits()) },
        Op::GlobalStore { addr: VReg(10), src: VReg(4), width: Width::B32, offset: 0 },
    ];
    let ops = make_counted_loop(body, 0, 8, 1);

    let (result, pipelined) = software_pipeline(ops);
    assert_eq!(pipelined, 1, "should pipeline 1 loop");

    // There should now be 2 GlobalLoads: 1 prologue + 1 in body
    let load_count = result.iter().filter(|op| matches!(op, Op::GlobalLoad { .. })).count();
    assert_eq!(load_count, 2, "pipelining should add 1 prologue load (total 2)");

    // The prologue load should appear BEFORE the loop body wait
    let first_load_pos = result.iter().position(|op| matches!(op, Op::GlobalLoad { .. })).unwrap();
    let first_wait_pos = result.iter().position(|op| matches!(op, Op::WaitVmcnt(0))).unwrap();
    assert!(first_load_pos < first_wait_pos,
        "prologue load (pos {}) should come before first wait (pos {})",
        first_load_pos, first_wait_pos);
}

#[test]
fn test_sw_pipeline_no_loop() {
    // No loop → pass should be a no-op
    let ops = vec![
        Op::VMov { dst: VReg(1), src: Operand::InlineFloat(1.0f32.to_bits()) },
        Op::GlobalStore { addr: VReg(10), src: VReg(1), width: Width::B32, offset: 0 },
        Op::Endpgm,
    ];
    let original = ops.clone();

    let (result, pipelined) = software_pipeline(ops);
    assert_eq!(pipelined, 0, "no loops → 0 pipelined");
    assert_eq!(result.len(), original.len(), "op list should be unchanged");
}

// ═══════════════════════════════════════════
//  Load/Store Coalescing tests
// ═══════════════════════════════════════════

#[test]
fn test_coalesce_4x_b32_to_b128() {
    // 4 consecutive B32 loads with same addr, contiguous offsets, contiguous dsts
    let ops = vec![
        Op::GlobalLoad { dst: VReg(3), addr: VReg(20), width: Width::B32, offset: 0 },
        Op::GlobalLoad { dst: VReg(4), addr: VReg(20), width: Width::B32, offset: 4 },
        Op::GlobalLoad { dst: VReg(5), addr: VReg(20), width: Width::B32, offset: 8 },
        Op::GlobalLoad { dst: VReg(6), addr: VReg(20), width: Width::B32, offset: 12 },
        Op::Endpgm,
    ];

    let (result, coalesced) = coalesce_loads(ops);
    assert_eq!(coalesced, 3, "should save 3 ops (4→1)");
    assert_eq!(result.len(), 2, "should be 1 B128 load + Endpgm");
    // Check the coalesced load
    match &result[0] {
        Op::GlobalLoad { dst, addr, width, offset } => {
            assert_eq!(*dst, VReg(3));
            assert_eq!(*addr, VReg(20));
            assert_eq!(*width, Width::B128);
            assert_eq!(*offset, 0);
        }
        other => panic!("expected GlobalLoad B128, got {:?}", other),
    }
}

#[test]
fn test_coalesce_2x_b32_to_b64() {
    // 2 consecutive B32 loads → B64
    let ops = vec![
        Op::GlobalLoad { dst: VReg(10), addr: VReg(20), width: Width::B32, offset: 8 },
        Op::GlobalLoad { dst: VReg(11), addr: VReg(20), width: Width::B32, offset: 12 },
        Op::Endpgm,
    ];

    let (result, coalesced) = coalesce_loads(ops);
    assert_eq!(coalesced, 1, "should save 1 op (2→1)");
    assert_eq!(result.len(), 2, "should be 1 B64 load + Endpgm");
    match &result[0] {
        Op::GlobalLoad { dst, width, offset, .. } => {
            assert_eq!(*dst, VReg(10));
            assert_eq!(*width, Width::B64);
            assert_eq!(*offset, 8);
        }
        other => panic!("expected GlobalLoad B64, got {:?}", other),
    }
}

#[test]
fn test_coalesce_skip_gap() {
    // Non-contiguous offsets → should NOT coalesce
    let ops = vec![
        Op::GlobalLoad { dst: VReg(3), addr: VReg(20), width: Width::B32, offset: 0 },
        Op::GlobalLoad { dst: VReg(4), addr: VReg(20), width: Width::B32, offset: 8 }, // gap!
        Op::Endpgm,
    ];

    let (result, coalesced) = coalesce_loads(ops);
    assert_eq!(coalesced, 0, "non-contiguous offsets should not coalesce");
    assert_eq!(result.len(), 3, "op list should be unchanged");
}

// ═══════════════════════════════════════════
//  Strength Reduction tests
// ═══════════════════════════════════════════

#[test]
fn test_strength_reduce_no_loop() {
    // No loop → pass should be a no-op
    let ops = vec![
        Op::VMov { dst: VReg(1), src: Operand::InlineFloat(1.0f32.to_bits()) },
        Op::Endpgm,
    ];
    let original_len = ops.len();

    let (result, reduced) = strength_reduce(ops);
    assert_eq!(reduced, 0, "no loops → 0 reduced");
    assert_eq!(result.len(), original_len);
}

#[test]
fn test_strength_reduce_conservative() {
    // Has a loop but no VMovFromSgpr pattern → strength_reduce is conservative, returns 0
    let body = vec![
        Op::VAddF32 { dst: VReg(3), src0: Operand::VReg(VReg(1)), src1: Operand::VReg(VReg(2)) },
        Op::GlobalStore { addr: VReg(10), src: VReg(3), width: Width::B32, offset: 0 },
    ];
    let ops = make_counted_loop(body, 0, 8, 1);
    let original_len = ops.len();

    let (result, reduced) = strength_reduce(ops);
    assert_eq!(reduced, 0, "no VLshlrev pattern → 0 reduced");
    assert_eq!(result.len(), original_len);
}

// ═══════════════════════════════════════════
//  Pieces of the passes
// ═══════════════════════════════════════════

fn load(dst: u32, offset: i32) -> Op {
    Op::GlobalLoad { dst: VReg(dst), addr: VReg(20), width: Width::B32, offset }
}

fn add(dst: u32, a: u32, b: u32) -> Op {
    Op::VAddF32 {
        dst: VReg(dst),
        src0: Operand::VReg(VReg(a)),
        src1: Operand::VReg(VReg(b)),
    }
}

#[test]
fn loops_are_found_with_their_parts() {
    let ops = make_counted_loop(vec![add(3, 1, 2)], 0, 8, 2);
    let loops = detect_loops(&ops);
    assert_eq!(loops.len(), 1);
    let l = &loops[0];
    assert_eq!((l.header_idx, l.exit_branch_idx, l.body_start), (2, 4, 5));
    assert_eq!((l.latch_add_idx, l.backedge_idx, l.exit_label_idx), (6, 7, 8));
    assert_eq!((l.iter_sreg, l.end_sreg, l.step), (SReg(100), SReg(101), 2));
    assert_eq!((l.header_label.as_str(), l.exit_label.as_str()), ("loop_0", "end_loop_0"));
    assert!(is_safe_to_unroll(&ops, 5, 6));
    assert!(!is_safe_to_unroll(&ops, 2, 6));
}

#[test]
fn small_bodies_are_copied_more_often() {
    let factors: Vec<usize> = [0, 1, 16, 17, 48, 49].iter().map(|n| unroll_factor(*n)).collect();
    assert_eq!(factors, [1, 4, 4, 2, 2, 1]);
}

#[test]
fn the_largest_register_is_found() {
    assert_eq!(max_vreg_in_ops(&[]), 0);
    assert_eq!(max_vreg_in_ops(&[add(3, 17, 2), add(4, 5, 6)]), 17);
    // a wide load fills the registers behind its first
    let wide = Op::GlobalLoad { dst: VReg(40), addr: VReg(20), width: Width::B128, offset: 0 };
    assert!(max_vreg_in_ops(&[wide]) >= 40);
}

#[test]
fn only_chosen_registers_are_renamed() {
    let mut set = HashSet::new();
    set.insert(3u32);
    match rename_op_vregs(&add(3, 1, 3), 100, &set) {
        Op::VAddF32 { dst, src0, src1 } => {
            assert_eq!(dst, VReg(103));
            assert_eq!(src0, Operand::VReg(VReg(1)));
            assert_eq!(src1, Operand::VReg(VReg(103)));
        },
        other => panic!("{:?}", other),
    }
}

#[test]
fn stores_are_merged_too() {
    let store = |src: u32, offset: i32| Op::GlobalStore {
        addr: VReg(20),
        src: VReg(src),
        width: Width::B32,
        offset,
    };
    let (r, saved) = coalesce_loads(vec![store(4, 0), store(5, 4), store(6, 8), store(7, 12)]);
    assert_eq!(saved, 3);
    assert!(matches!(r[0], Op::GlobalStore { src: VReg(4), width: Width::B128, offset: 0, .. }));
    // other registers, or another order, are left alone
    assert_eq!(coalesce_loads(vec![store(4, 0), store(6, 4)]).1, 0);
    assert_eq!(coalesce_loads(vec![load(4, 4), load(5, 0)]).1, 0);
}

#[test]
fn independent_operations_move_up_to_the_loads() {
    let ops = vec![load(1, 0), add(2, 1, 1), add(5, 6, 7), Op::WaitVmcnt(0), Op::Endpgm];
    let (r, moved) = post_regalloc_schedule(ops);
    assert_eq!(r.len(), 5);
    assert_eq!(moved, 1);
    // the addition that does not use what is loaded comes first
    assert!(matches!(r[1], Op::VAddF32 { dst: VReg(5), .. }));
    assert!(matches!(r[2], Op::VAddF32 { dst: VReg(2), .. }));
    assert!(matches!(r[3], Op::WaitVmcnt(0)));
}

#[test]
fn levels_choose_the_passes() {
    let ops = || vec![load(3, 0), load(4, 4), Op::Endpgm];
    let config = |level: u32| OptConfig { level, passes: Passes::default() };
    let (r, stats) = optimize(ops(), &[], &config(0));
    assert_eq!((r.len(), stats.original_ops), (3, 0));
    let (r, stats) = optimize(ops(), &[], &config(1));
    assert_eq!((r.len(), stats.original_ops, stats.final_ops), (3, 3, 3));
    let (r, stats) = optimize(ops(), &[], &config(2));
    assert_eq!((r.len(), stats.loads_coalesced), (3, 0));
    assert_eq!(stats.dead_ops_removed, 0);
    let (r, stats) = optimize(ops(), &[], &config(3));
    assert_eq!((r.len(), stats.loads_coalesced), (2, 1));
    let body = vec![
        add(3, 1, 2),
        Op::GlobalStore { addr: VReg(10), src: VReg(3), width: Width::B32, offset: 0 },
    ];
    let looped = make_counted_loop(body, 0, 8, 1);
    assert_eq!(optimize(looped, &[], &config(2)).1.loops_unrolled, 1);
    assert_eq!(OptConfig::default(), config(4));
}

// ═══════════════════════════════════════════
//  Full pipeline
// ═══════════════════════════════════════════

fn float(x: f32) -> Operand {
    Operand::InlineFloat(x.to_bits())
}

#[test]
fn test_full_pipeline() {
    // Exercise all passes together
    let ops = vec![
        // Constants
        Op::VMov { dst: VReg(1), src: float(2.0) },
        Op::VMov { dst: VReg(2), src: float(3.0) },
        // Computable from constants
        Op::VAddF32 {
            dst: VReg(3),
            src0: Operand::VReg(VReg(1)),
            src1: Operand::VReg(VReg(2)),
        },
        // Dead op (result unused)
        Op::VMov { dst: VReg(99), src: float(99.0) },
        // Side effect to keep everything alive
        Op::GlobalStore { addr: VReg(10), src: VReg(3), width: Width::B32, offset: 0 },
        Op::Endpgm,
    ];
    let (result, stats) = optimize(ops, &[], &OptConfig::default());
    assert!(stats.consts_folded >= 1, "should fold 2.0 + 3.0");
    assert!(stats.dead_ops_removed >= 1, "should remove dead v99");
    // what is left is the sum, its store and the end
    assert_eq!(result.len(), 3);
    assert!(matches!(result[0], Op::VMov { dst: VReg(3), .. }));
    match &result[0] {
        Op::VMov { src, .. } => assert_eq!(*src, float(5.0)),
        other => panic!("{:?}", other),
    }
    assert_eq!((stats.consts_folded, stats.dead_ops_removed), (1, 3));
    assert_eq!((stats.original_ops, stats.final_ops), (6, 3));
}

fn mov(dst: u32, src: Operand) -> Op {
    Op::VMov { dst: VReg(dst), src }
}

fn v(id: u32) -> Operand {
    Operand::VReg(VReg(id))
}

#[test]
fn constants_are_folded_exactly() {
    let fold = |op: Op, a: Operand, b: Operand| {
        let (r, n) = fold_constants(vec![mov(1, a), mov(2, b), op]);
        match &r[2] {
            Op::VMov { dst: VReg(3), src } => Some((*src, n)),
            _ => None,
        }
    };
    let (dst, src0, src1) = (VReg(3), v(1), v(2));
    let int = Operand::InlineInt;
    assert_eq!(fold(Op::VAddU32 { dst, src0, src1 }, int(7), int(8)), Some((int(15), 1)));
    assert_eq!(
        fold(Op::VSubU32 { dst, src0, src1 }, int(7), int(8)),
        Some((Operand::Literal(0xFFFF_FFFF), 1))
    );
    assert_eq!(fold(Op::VMinU32 { dst, src0, src1 }, int(7), int(8)), Some((int(7), 1)));
    assert_eq!(fold(Op::VAndB32 { dst, src0, src1 }, int(6), int(3)), Some((int(2), 1)));
    assert_eq!(fold(Op::VOrB32 { dst, src0, src1 }, int(6), int(3)), Some((int(7), 1)));
    assert_eq!(fold(Op::VXorB32 { dst, src0, src1 }, int(6), int(3)), Some((int(5), 1)));
    assert_eq!(
        fold(Op::VMulLoU32 { dst, src0: VReg(1), src1: VReg(2) }, int(20), int(30)),
        Some((Operand::Literal(600), 1))
    );
    for (x, y) in [(2.0, 3.0), (0.0, 0.0), (1000.0, 24.0), (4096.0, 4095.0), (1.0, 0.0)] {
        let sum = fold(Op::VAddF32 { dst, src0, src1 }, float(x), float(y));
        assert_eq!(sum, Some((float(x + y), 1)), "{} {}", x, y);
        let product = fold(Op::VMulF32 { dst, src0, src1 }, float(x), float(y));
        assert_eq!(product, Some((float(x * y), 1)), "{} {}", x, y);
        let difference = fold(Op::VSubF32 { dst, src0, src1 }, float(x), float(y));
        if x >= y {
            assert_eq!(difference, Some((float(x - y), 1)), "{} {}", x, y);
        } else {
            assert_eq!(difference, None);
        }
        let largest = fold(Op::VMaxF32 { dst, src0, src1 }, float(x), float(y));
        assert_eq!(largest, Some((float(x.max(y)), 1)));
        let smallest = fold(Op::VMinF32 { dst, src0, src1 }, float(x), float(y));
        assert_eq!(smallest, Some((float(x.min(y)), 1)));
    }
    // fractions and results that may be rounded stay
    assert_eq!(fold(Op::VAddF32 { dst, src0, src1 }, float(0.5), float(1.0)), None);
    assert_eq!(fold(Op::VAddF32 { dst, src0, src1 }, float(-1.0), float(1.0)), None);
    assert_eq!(fold(Op::VMulF32 { dst, src0, src1 }, float(65536.0), float(65536.0)), None);
}

#[test]
fn constants_are_forgotten_where_they_may_change() {
    let sum = || Op::VAddU32 { dst: VReg(3), src0: v(1), src1: Operand::InlineInt(1) };
    let folds = |ops: Vec<Op>| fold_constants(ops).1;
    assert_eq!(folds(vec![mov(1, Operand::InlineInt(4)), sum()]), 1);
    let label = Op::Label("here".to_string());
    assert_eq!(folds(vec![mov(1, Operand::InlineInt(4)), label, sum()]), 0);
    let mask = Op::SaveExec { dst: SReg(9) };
    assert_eq!(folds(vec![mov(1, Operand::InlineInt(4)), mask, sum()]), 0);
    assert_eq!(folds(vec![mov(1, Operand::InlineInt(4)), load(1, 0), sum()]), 0);
    // a folded result is a constant for what follows
    let chain = vec![
        mov(1, Operand::InlineInt(4)),
        sum(),
        Op::VAddU32 { dst: VReg(4), src0: v(3), src1: v(1) },
    ];
    let (r, n) = fold_constants(chain);
    assert_eq!(n, 2);
    assert!(matches!(r[2], Op::VMov { dst: VReg(4), src: Operand::InlineInt(9) }));
}

#[test]
fn dead_operations_go_round_by_round() {
    // v3 is only read by an operation that is dead itself
    let ops = vec![
        add(3, 1, 2),
        add(4, 3, 3),
        load(5, 0),
        Op::VCmpLtU32 { src0: v(1), src1: v(2) },
        Op::GlobalStore { addr: VReg(10), src: VReg(1), width: Width::B32, offset: 0 },
        Op::Endpgm,
    ];
    let (r, gone) = remove_dead(ops, &[], 1);
    assert_eq!((r.len(), gone), (5, 1));
    let (r, gone) = remove_dead(r, &[], 5);
    assert_eq!((r.len(), gone), (4, 1));
    // loads are counted by waits, and comparisons set the condition code
    assert!(matches!(r[0], Op::GlobalLoad { .. }));
    assert!(matches!(r[1], Op::VCmpLtU32 { .. }));
    // text that is not read may need anything
    let raw = vec![add(3, 1, 2), Op::RawAsm("v_nop".to_string())];
    assert_eq!(remove_dead(raw, &[], 5).1, 0);
}

// ═══════════════════════════════════════════
//  Dependencies
// ═══════════════════════════════════════════

#[test]
fn condition_codes_keep_their_order() {
    let ops = vec![
        load(1, 0),
        Op::VCndmaskB32 { dst: VReg(5), src_false: v(1), src_true: v(6) },
        Op::VCmpLtU32 { src0: v(7), src1: v(8) },
        Op::WaitVmcnt(0),
    ];
    let (r, moved) = post_regalloc_schedule(ops);
    assert_eq!(moved, 0);
    assert!(matches!(r[1], Op::VCndmaskB32 { .. }));
    assert!(matches!(r[2], Op::VCmpLtU32 { .. }));
    let ops = vec![
        load(1, 0),
        Op::SaveExec { dst: SReg(20) },
        Op::VCmpLtU32 { src0: v(7), src1: v(8) },
        Op::WaitVmcnt(0),
    ];
    let (r, moved) = post_regalloc_schedule(ops);
    assert_eq!(moved, 0);
    assert!(matches!(r[1], Op::SaveExec { .. }));
}

#[test]
fn no_operation_passes_a_wait_that_it_needs() {
    // the sum needs what the global load brings, though it stands behind a load from the local
    // data share
    let ops = vec![
        Op::DsLoadB32 { dst: VReg(1), vaddr: VReg(9), offset: 0 },
        load(2, 0),
        Op::WaitVmcnt(0),
        add(3, 2, 5),
        Op::WaitLgkmcnt(0),
    ];
    let (r, _) = post_regalloc_schedule(ops);
    assert!(matches!(r[2], Op::WaitVmcnt(0)));
    assert!(matches!(r[3], Op::VAddF32 { .. }));
    // and where the global load stands in a block before
    let ops = vec![
        load(1, 0),
        Op::Label("l".to_string()),
        Op::DsLoadB32 { dst: VReg(2), vaddr: VReg(9), offset: 0 },
        add(6, 2, 2),
        Op::WaitVmcnt(0),
        add(3, 1, 1),
        Op::WaitLgkmcnt(0),
    ];
    let (r, moved) = post_regalloc_schedule(ops);
    assert_eq!(moved, 0);
    assert!(matches!(r[4], Op::WaitVmcnt(0)));
}

#[test]
fn every_operation_is_renamed() {
    let mut set = HashSet::new();
    set.insert(3u32);
    set.insert(4u32);
    let (a, b) = (VReg(3), VReg(4));
    let cases = vec![
        Op::VMinU32 { dst: a, src0: v(4), src1: v(4) },
        Op::VSinF32 { dst: a, src: b },
        Op::VCosF32 { dst: a, src: b },
        Op::VCmpGtF32 { src0: v(3), src1: v(4) },
        Op::VCmpEqU32Imm { src: a, imm: 1 },
        Op::CvtPkBf16F32 { dst: a, src0: b, src1: b },
        Op::DsLoadB64 { dst: a, vaddr: b, offset: 0 },
        Op::DsStoreB128 { vaddr: a, src: b, offset: 0 },
        Op::VAndOrB32 { dst: a, src0: b, literal: 1, src2: b },
        Op::VLshrrevB32Vgpr { dst: a, shift: b, src: b },
        Op::VReadfirstlane { dst: SReg(3), src: a },
        Op::VPermlanex16B32 { dst: a, src: b },
        Op::ReadShaderCycles { dst: a },
        Op::VMov { dst: a, src: v(4) },
    ];
    for op in cases {
        let to = rename_op_vregs(&op, 100, &set);
        let moved = |r: Vec<VReg>| -> Vec<u32> {
            r.iter().map(|v| if v.0 < 100 && set.contains(&v.0) { v.0 + 100 } else { v.0 }).collect()
        };
        let first = |r: Vec<VReg>| r.first().map(|v| v.0);
        // what is named is what was named, renamed, up to the registers behind a wide access
        assert_eq!(first(to.vreg_defs()), moved(op.vreg_defs()).first().copied(), "{:?}", op);
        assert_eq!(first(to.vreg_uses()), moved(op.vreg_uses()).first().copied(), "{:?}", op);
        assert_eq!(to.sreg_defs(), op.sreg_defs());
    }
}

#[test]
fn copies_are_tested_and_keep_carried_registers() {
    // v3 is carried from round to round, v5 is not, and v6 is read behind the loop
    let body = vec![add(5, 1, 2), add(3, 3, 5), add(6, 5, 5)];
    let mut ops = make_counted_loop(body, 0, 7, 1);
    let end = ops.len() - 1;
    ops.insert(
        end,
        Op::GlobalStore { addr: VReg(10), src: VReg(6), width: Width::B32, offset: 0 },
    );
    let (r, unrolled) = loop_unroll(ops);
    assert_eq!(unrolled, 1);
    let sums: Vec<(u32, Operand, Operand)> = r.iter().filter_map(|op| {
        if let Op::VAddF32 { dst, src0, src1 } = op { Some((dst.0, *src0, *src1)) } else { None }
    }).collect();
    assert_eq!(sums.len(), 12);
    let mut privates = HashSet::new();
    for round in 0..4 {
        let (p, _, _) = sums[3 * round];
        privates.insert(p);
        assert_eq!(sums[3 * round + 1], (3, v(3), v(p)));
        assert_eq!(sums[3 * round + 2], (6, v(p), v(p)));
    }
    assert_eq!(privates.len(), 4);
    // every round is tested: the number of rounds need be no multiple of four
    let tests = r.iter().filter(|op| matches!(op, Op::SCmpGeU32 { .. })).count();
    let exits = r.iter().filter(|op| matches!(op, Op::BranchScc1(_))).count();
    assert_eq!((tests, exits), (4, 4));
    for (i, op) in r.iter().enumerate() {
        if matches!(op, Op::SCmpGeU32 { .. }) {
            assert!(matches!(r[i + 1], Op::BranchScc1(_)));
            assert!(matches!(r[i - 1], Op::SAddU32 { .. } | Op::Label(_)));
        }
    }
}

#[test]
fn wide_accesses_keep_their_registers() {
    let body = vec![
        Op::GlobalLoad { dst: VReg(3), addr: VReg(20), width: Width::B64, offset: 0 },
        Op::WaitVmcnt(0),
        add(7, 3, 4),
        Op::GlobalStore { addr: VReg(20), src: VReg(7), width: Width::B32, offset: 0 },
    ];
    let (r, _) = loop_unroll(make_counted_loop(body, 0, 8, 1));
    for op in &r {
        match op {
            Op::GlobalLoad { dst, addr, .. } => assert_eq!((*dst, *addr), (VReg(3), VReg(20))),
            Op::VAddF32 { src0, src1, .. } => assert_eq!((*src0, *src1), (v(3), v(4))),
            _ => {},
        }
    }
    let sums: HashSet<u32> = r.iter().filter_map(|op| {
        if let Op::VAddF32 { dst, .. } = op { Some(dst.0) } else { None }
    }).collect();
    assert_eq!(sums.len(), 4);
}

#[test]
fn masked_bodies_keep_their_registers() {
    let body = vec![
        Op::SaveExec { dst: SReg(90) },
        add(5, 1, 2),
        Op::RestoreExec { src: SReg(90) },
        add(6, 5, 5),
    ];
    let (r, unrolled) = loop_unroll(make_counted_loop(body, 0, 8, 1));
    assert_eq!(unrolled, 1);
    for op in &r {
        if let Op::VAddF32 { dst, .. } = op {
            assert!(dst.0 == 5 || dst.0 == 6);
        }
    }
}

#[test]
fn pipelined_loads_stand_in_front_of_the_loop() {
    let body = vec![
        load(3, 0),
        Op::WaitVmcnt(0),
        add(4, 3, 3),
        Op::GlobalStore { addr: VReg(10), src: VReg(4), width: Width::B32, offset: 0 },
    ];
    let (r, n) = software_pipeline(make_counted_loop(body, 0, 8, 1));
    assert_eq!(n, 1);
    let place = |f: fn(&Op) -> bool| r.iter().position(f).unwrap();
    let first_load = place(|op| matches!(op, Op::GlobalLoad { .. }));
    let label = place(|op| matches!(op, Op::Label(_)));
    assert_eq!(first_load + 1, label);
    assert!(matches!(r[label + 1], Op::SCmpGeU32 { .. }));
    assert!(matches!(r[label + 2], Op::BranchScc1(_)));
    assert!(matches!(r[label + 3], Op::WaitVmcnt(0)));
    assert!(matches!(r[label + 6], Op::GlobalLoad { .. }));
    assert!(matches!(r[label + 7], Op::SAddU32 { .. }));
    // a load whose address the body computes first cannot be issued early
    let body = vec![
        Op::VAddU32 { dst: VReg(20), src0: v(20), src1: Operand::InlineInt(4) },
        load(3, 0),
        Op::WaitVmcnt(0),
        add(4, 3, 3),
    ];
    assert_eq!(software_pipeline(make_counted_loop(body, 0, 8, 1)).1, 0);
}

#[test]
fn common_subexpressions_become_moves() {
    let ops = || vec![
        add(3, 1, 2),
        add(4, 1, 2),
        add(5, 4, 4),
        Op::GlobalStore { addr: VReg(10), src: VReg(5), width: Width::B32, offset: 0 },
        Op::GlobalStore { addr: VReg(10), src: VReg(3), width: Width::B32, offset: 4 },
        Op::Endpgm,
    ];
    let (r, n) = remove_common(ops());
    assert_eq!(n, 1);
    assert!(matches!(r[1], Op::VMov { dst: VReg(4), src: Operand::VReg(VReg(3)) }));
    // a kind, a source or a register that changed makes another value
    let other = vec![add(3, 1, 2), add(3, 1, 1), add(4, 1, 2)];
    assert_eq!(remove_common(other).1, 0);
    let other = vec![add(3, 1, 2), add(1, 6, 6), add(4, 1, 2)];
    assert_eq!(remove_common(other).1, 0);
    let other = vec![add(3, 1, 2), Op::VMulF32 { dst: VReg(4), src0: v(1), src1: v(2) }];
    assert_eq!(remove_common(other).1, 0);
    let raw = Op::RawAsm("s_branch l".to_string());
    let other = vec![add(3, 1, 2), Op::Label("l".to_string()), add(4, 1, 2), raw];
    assert_eq!(remove_common(other).1, 0);
    // an operation that overwrites its own source holds nothing
    let other = vec![add(1, 1, 2), add(4, 1, 2)];
    assert_eq!(remove_common(other).1, 0);
    let passes = Passes { cse: false, ..Passes::default() };
    let config = OptConfig { passes, ..OptConfig::default() };
    assert_eq!(optimize(ops(), &[], &config).1.cse_eliminated, 0);
    assert_eq!(optimize(ops(), &[], &OptConfig::default()).1.cse_eliminated, 1);
}

#[test]
fn operations_that_give_a_source_back_become_moves() {
    let zero = Operand::InlineInt(0);
    let (dst, x) = (VReg(3), v(1));
    let give_back = vec![
        Op::VAddU32 { dst, src0: x, src1: zero },
        Op::VAddU32 { dst, src0: zero, src1: x },
        Op::VSubU32 { dst, src0: x, src1: zero },
        Op::VOrB32 { dst, src0: x, src1: zero },
        Op::VOrB32 { dst, src0: zero, src1: x },
        Op::VXorB32 { dst, src0: x, src1: zero },
        Op::VXorB32 { dst, src0: zero, src1: x },
    ];
    let n = give_back.len();
    let (r, count) = simplify(give_back);
    assert_eq!(count, n);
    for op in &r {
        assert!(matches!(op, Op::VMov { dst: VReg(3), src: Operand::VReg(VReg(1)) }));
    }
    let (r, count) = simplify(vec![Op::VAndB32 { dst, src0: x, src1: zero }]);
    assert_eq!(count, 1);
    assert!(matches!(r[0], Op::VMov { dst: VReg(3), src: Operand::InlineInt(0) }));
    // a difference from zero stays
    assert_eq!(simplify(vec![Op::VSubU32 { dst, src0: zero, src1: x }]).1, 0);
}

#[test]
fn products_and_differences_are_simplified() {
    let (dst, x, y) = (VReg(3), v(1), v(2));
    let one = |op: Op| {
        let (r, count) = simplify(vec![op]);
        assert_eq!(count, 1);
        match &r[0] {
            Op::VMov { dst: VReg(3), src } => *src,
            other => panic!("{:?}", other),
        }
    };
    // x - x, x * 1, x * 0 and x + 0, of floats
    assert_eq!(one(Op::VSubF32 { dst, src0: x, src1: x }), float(0.0));
    assert_eq!(one(Op::VMulF32 { dst, src0: x, src1: float(1.0) }), x);
    assert_eq!(one(Op::VMulF32 { dst, src0: float(1.0), src1: x }), x);
    assert_eq!(one(Op::VMulF32 { dst, src0: x, src1: float(0.0) }), float(0.0));
    assert_eq!(one(Op::VAddF32 { dst, src0: x, src1: float(0.0) }), x);
    // and of integers, whose factors are in registers
    assert_eq!(one(Op::VSubU32 { dst, src0: x, src1: x }), Operand::InlineInt(0));
    let times = |factor: i32| {
        let (r, count) = simplify(vec![
            mov(2, Operand::InlineInt(factor)),
            Op::VMulLoU32 { dst, src0: VReg(1), src1: VReg(2) },
        ]);
        (count, matches!(r[1], Op::VMov { dst: VReg(3), src: Operand::VReg(VReg(1)) }),
            matches!(r[1], Op::VMov { dst: VReg(3), src: Operand::InlineInt(0) }))
    };
    assert_eq!(times(1), (1, true, false));
    assert_eq!(times(0), (1, false, true));
    assert_eq!(times(2), (0, false, false));
    // two registers stay
    assert_eq!(simplify(vec![Op::VSubF32 { dst, src0: x, src1: y }]).1, 0);
    assert_eq!(simplify(vec![Op::VMulF32 { dst, src0: x, src1: y }]).1, 0);
}

#[test]
fn groups_are_left_alone() {
    let group = [CoalescedGroup { id: 0, base_vreg: VReg(2), count: 2 }];
    // v2 is a copy, but of a group; v3 is never read, but of a group
    let ops = || vec![mov(2, v(1)), mov(3, v(1)), add(4, 2, 2), mov(5, v(1)), add(6, 5, 5)];
    let (r, n) = propagate_copies(ops(), &group);
    assert_eq!(n, 1);
    assert!(matches!(r[2], Op::VAddF32 { src0: Operand::VReg(VReg(2)), .. }));
    assert!(matches!(r[4], Op::VAddF32 { src0: Operand::VReg(VReg(1)), .. }));
    assert_eq!(propagate_copies(ops(), &[]).1, 2);
    let (r, gone) = remove_dead(ops(), &group, 5);
    assert_eq!(gone, 2);
    assert!(matches!(r[1], Op::VMov { dst: VReg(3), .. }));
    assert_eq!(remove_dead(ops(), &[], 5).1, 5);
    let stats = optimize(ops(), &group, &OptConfig::default()).1;
    assert!(stats.final_ops >= 3);
    assert_eq!(optimize(ops(), &[], &OptConfig::default()).1.final_ops, 0);
}

#[test]
fn products_and_sums_are_fused() {
    let mul = |dst: u32, a: u32, b: u32| Op::VMulF32 {
        dst: VReg(dst),
        src0: v(a),
        src1: v(b),
    };
    let (r, n) = combine(vec![mul(4, 1, 2), add(5, 4, 3), add(6, 3, 4)]);
    assert_eq!(n, 2);
    for (k, dst) in [(1, 5), (2, 6)] {
        match &r[k] {
            Op::VFmaF32 { dst: d, src0, src1, src2 } => {
                assert_eq!(*d, VReg(dst));
                assert_eq!((*src0, *src1, *src2), (v(1), v(2), v(3)));
            },
            other => panic!("{:?}", other),
        }
    }
    // a factor that changed in between is another one
    assert_eq!(combine(vec![mul(4, 1, 2), add(1, 7, 7), add(5, 4, 3)]).1, 0);
    // the product goes when nothing else reads it
    let stats = optimize(
        vec![
            mul(4, 1, 2),
            add(5, 4, 3),
            Op::GlobalStore { addr: VReg(10), src: VReg(5), width: Width::B32, offset: 0 },
            Op::Endpgm,
        ],
        &[],
        &OptConfig::default(),
    ).1;
    assert_eq!((stats.instructions_combined, stats.dead_ops_removed, stats.final_ops), (1, 1, 3));
}

#[test]
fn invariant_operations_leave_the_loop() {
    let store = |src: u32| Op::GlobalStore {
        addr: VReg(10),
        src: VReg(src),
        width: Width::B32,
        offset: 0,
    };
    let body = vec![add(3, 1, 2), add(4, 3, 5), add(5, 4, 4), store(4)];
    let ops = make_counted_loop(body, 0, 8, 1);
    let before = ops.len();
    let label = ops.iter().position(|op| matches!(op, Op::Label(_))).unwrap();
    let (r, n) = hoist_invariants(ops);
    assert_eq!((r.len(), n), (before, 1));
    // only v3 depends on nothing that the loop changes
    assert!(matches!(r[label], Op::VAddF32 { dst: VReg(3), .. }));
    assert!(matches!(r[label + 1], Op::Label(_)));
    // a register that is read in front of its definition holds what the last round left
    let body = vec![add(4, 3, 3), add(3, 1, 2), store(4)];
    assert_eq!(hoist_invariants(make_counted_loop(body, 0, 8, 1)).1, 0);
    // and one that is read behind the loop may come from before it
    let mut ops = make_counted_loop(vec![add(3, 1, 2), store(4)], 0, 8, 1);
    let end = ops.len() - 1;
    ops.insert(end, store(3));
    assert_eq!(hoist_invariants(ops).1, 0);
}

#[test]
fn multiples_of_the_counter_are_carried() {
    let store = |src: u32| Op::GlobalStore {
        addr: VReg(10),
        src: VReg(src),
        width: Width::B32,
        offset: 0,
    };
    let looped = make_counted_loop(vec![store(1)], 0, 8, 16);
    let counter = looped.iter().find_map(|op| {
        if let Op::SAddU32 { dst, .. } = op { Some(*dst) } else { None }
    }).unwrap();
    let body = |op: Op| vec![Op::VMovFromSgpr { dst: VReg(3), src: counter }, op, store(4)];
    let shift = Op::VLshlrevB32 { dst: VReg(4), shift: 2, src: VReg(3) };
    let ops = make_counted_loop(body(shift.clone()), 0, 8, 16);
    let label = ops.iter().position(|op| matches!(op, Op::Label(_))).unwrap();
    let before = ops.len();
    let (r, n) = strength_reduce(ops);
    assert_eq!((n, r.len()), (1, before + 2));
    assert!(matches!(r[label], Op::VMovFromSgpr { dst: VReg(4), .. }));
    assert!(matches!(r[label + 1], Op::VLshlrevB32 { dst: VReg(4), shift: 2, src: VReg(4) }));
    assert!(matches!(r[label + 2], Op::Label(_)));
    let latch = r.iter().position(|op| matches!(op, Op::Branch(_))).unwrap() - 1;
    match &r[latch - 1] {
        Op::VAddU32 { dst, src0, src1 } => {
            assert_eq!((*dst, *src0), (VReg(4), v(4)));
            // sixteen steps of four bytes
            assert_eq!(*src1, Operand::InlineInt(64));
        },
        other => panic!("{:?}", other),
    }
    assert!(matches!(r[latch], Op::SAddU32 { .. }));
    // a multiplication is carried where the counter steps by one
    let times = Op::VMulLoU32 { dst: VReg(4), src0: VReg(3), src1: VReg(9) };
    assert_eq!(strength_reduce(make_counted_loop(body(times.clone()), 0, 8, 1)).1, 1);
    assert_eq!(strength_reduce(make_counted_loop(body(times), 0, 8, 16)).1, 0);
    // an offset that is changed elsewhere is not a multiple
    let mut changed = body(shift);
    changed.push(add(4, 4, 4));
    assert_eq!(strength_reduce(make_counted_loop(changed, 0, 8, 16)).1, 0);
}

#[test]
fn waits_for_nothing_are_removed() {
    let ops = vec![
        Op::WaitVmcnt(0),
        load(3, 0),
        load(4, 8),
        Op::WaitVmcnt(2),
        Op::WaitVmcnt(1),
        Op::WaitVmcnt(1),
        Op::WaitLgkmcnt(0),
        Op::WaitVmcnt(0),
        Op::Label("l".to_string()),
        Op::WaitVmcnt(0),
        Op::WaitVmcnt(0),
        Op::Endpgm,
    ];
    let (r, gone) = remove_idle_waits(ops);
    assert_eq!(gone, 5);
    let left: Vec<u8> = r.iter().filter_map(|op| {
        if let Op::WaitVmcnt(n) = op { Some(*n) } else { None }
    }).collect();
    assert_eq!(left, vec![1, 0, 0]);
    let store = Op::GlobalStore { addr: VReg(10), src: VReg(1), width: Width::B32, offset: 0 };
    let waiting = vec![store, Op::WaitVmcnt(0), Op::WaitVscnt(0), Op::WaitVscnt(0)];
    let (r, gone) = remove_idle_waits(waiting);
    assert_eq!((r.len(), gone), (3, 1));
    // an exchange between lanes is waited for
    let exchange = Op::DsSwizzle { dst: VReg(2), src: VReg(1), offset: 0 };
    assert_eq!(remove_idle_waits(vec![exchange, Op::WaitLgkmcnt(0)]).1, 0);
    let stats = optimize(
        vec![load(3, 0), Op::WaitVmcnt(0), Op::WaitVmcnt(0), Op::Endpgm],
        &[],
        &OptConfig::default(),
    ).1;
    assert_eq!(stats.waitcnts_removed, 1);
}

#[test]
fn operations_pass_waits_that_they_do_not_need() {
    let lds = Op::DsLoadB32 { dst: VReg(30), vaddr: VReg(31), offset: 0 };
    let ops = |sum: Op| vec![
        lds.clone(),
        Op::Label("l".to_string()),
        load(1, 0),
        add(2, 1, 1),
        Op::WaitLgkmcnt(0),
        sum,
        Op::WaitVmcnt(0),
        Op::Endpgm,
    ];
    let place = |r: &Vec<Op>, id: u32| r.iter().position(|op| {
        matches!(op, Op::VAddF32 { dst, .. } if dst.0 == id)
    }).unwrap();
    let wait = |r: &Vec<Op>| r.iter().position(|op| matches!(op, Op::WaitLgkmcnt(_))).unwrap();
    // an independent sum moves up to the global load
    let (r, _) = post_regalloc_schedule(ops(add(5, 6, 7)));
    assert!(place(&r, 5) < wait(&r));
    // one that needs what was loaded from the local data share stays behind the wait
    let (r, _) = post_regalloc_schedule(ops(add(5, 30, 7)));
    assert!(place(&r, 5) > wait(&r));
}

#[test]
fn common_subexpressions_reach_across_labels() {
    let label = || Op::Label("l".to_string());
    let branch = || Op::BranchScc1("l".to_string());
    // both ways to the label lead through the first sum
    let (_, n) = remove_common(vec![add(3, 1, 2), branch(), add(5, 7, 7), label(), add(4, 1, 2)]);
    assert_eq!(n, 1);
    // a loop that does not change it keeps it
    let (_, n) = remove_common(vec![add(3, 1, 2), label(), add(4, 1, 2), branch(), Op::Endpgm]);
    assert_eq!(n, 1);
    // one that does forgets it, and so does a way around it
    let looped = vec![add(3, 1, 2), label(), add(4, 1, 2), add(1, 7, 7), branch(), Op::Endpgm];
    assert_eq!(remove_common(looped).1, 0);
    assert_eq!(remove_common(vec![branch(), add(3, 1, 2), label(), add(4, 1, 2)]).1, 0);
}

#[test]
fn copies_are_read_from_where_they_come() {
    let ops = vec![mov(2, v(1)), mov(3, v(2)), add(4, 3, 2), add(1, 5, 5), add(6, 3, 2)];
    let (r, n) = propagate_copies(ops, &[]);
    assert_eq!(n, 2);
    assert!(matches!(r[1], Op::VMov { dst: VReg(3), src: Operand::VReg(VReg(1)) }));
    match &r[2] {
        Op::VAddF32 { src0, src1, .. } => assert_eq!((*src0, *src1), (v(1), v(1))),
        other => panic!("{:?}", other),
    }
    // behind a write to the register that was copied, the copies are needed
    match &r[4] {
        Op::VAddF32 { src0, src1, .. } => assert_eq!((*src0, *src1), (v(3), v(2))),
        other => panic!("{:?}", other),
    }
    let label = Op::Label("l".to_string());
    assert_eq!(propagate_copies(vec![mov(2, v(1)), label, add(4, 2, 2)], &[]).1, 0);
    let stats = optimize(
        vec![
            mov(2, v(1)),
            Op::VAddU32 { dst: VReg(3), src0: v(2), src1: Operand::InlineInt(0) },
            Op::GlobalStore { addr: VReg(10), src: VReg(3), width: Width::B32, offset: 0 },
            Op::Endpgm,
        ],
        &[],
        &OptConfig::default(),
    ).1;
    assert_eq!((stats.algebraic_simplified, stats.copies_propagated), (1, 1));
    assert_eq!((stats.dead_ops_removed, stats.final_ops), (1, 3));
}
