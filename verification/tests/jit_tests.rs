//! Tests for the translation side: the lifter's region discovery, the
//! translation cache, the coverage bitmap's set-once protocol, the
//! exit-dispatch table, and the worker's generator and mutator.

use rvemu::coverage::record_edge;
use rvemu::decode::{AluOp, Instruction, Register};
use rvemu::emulator::{Emulator, ExitReason, FaultType, AddressType, JitAction, VmExit};
use rvemu::emulator::{crash_key, jit_exit_action};
use rvemu::hooks::BreakpointHook;
use rvemu::jitcache::JitCache;
use rvemu::lifter::lift_region;
use rvemu::mmu::{Perm, VirtAddr, PERM_EXEC, PERM_READ, PERM_WRITE};
use rvemu::rng::{mutate_input, Rng};

const CODE: usize = 0x100;

fn enc_i(imm: i32, rs1: u32, f3: u32, rd: u32, op: u32) -> u32 {
    ((imm as u32) << 20) | (rs1 << 15) | (f3 << 12) | (rd << 7) | op
}

fn enc_jal(rd: u32, imm: i32) -> u32 {
    let v = imm as u32;
    (((v >> 20) & 1) << 31)
        | (((v >> 1) & 0x3FF) << 21)
        | (((v >> 11) & 1) << 20)
        | (((v >> 12) & 0xFF) << 12)
        | (rd << 7)
        | 0x6F
}

fn enc_b(f3: u32, rs1: u32, rs2: u32, imm: i32) -> u32 {
    let v = imm as u32;
    (((v >> 12) & 1) << 31)
        | (((v >> 5) & 0x3F) << 25)
        | (rs2 << 20)
        | (rs1 << 15)
        | (f3 << 12)
        | (((v >> 1) & 0xF) << 8)
        | (((v >> 11) & 1) << 7)
        | 0x63
}

const ECALL: u32 = 0x0000_0073;

fn emu_with(prog: &[u32]) -> Emulator {
    let mut emu = Emulator::new(1024 * 1024);
    emu.memory
        .set_permissions(VirtAddr(0), 64 * 1024, Perm(PERM_READ | PERM_WRITE | PERM_EXEC))
        .unwrap();
    let mut bytes = Vec::new();
    for w in prog {
        bytes.extend_from_slice(&[
            (*w & 0xff) as u8,
            ((*w >> 8) & 0xff) as u8,
            ((*w >> 16) & 0xff) as u8,
            ((*w >> 24) & 0xff) as u8,
        ]);
    }
    emu.memory.write_from(VirtAddr(CODE), &bytes).unwrap();
    emu.set_reg(Register::Pc, CODE as u64);
    emu
}

#[test]
fn lift_straight_line_until_the_trap() {
    // the region closes with a jump back to its entry
    let emu = emu_with(&[enc_i(5, 0, 0, 1, 0x13), ECALL, enc_jal(0, -8)]);
    let blocks = lift_region(&emu, VirtAddr(CODE)).unwrap();
    // the add, the ecall, and the jump laid out after the trap
    assert!(blocks.len() >= 3);
    assert_eq!(blocks[0].pc, CODE as u64);
    assert!(matches!(
        blocks[0].instr,
        Instruction::AluImm { op: AluOp::Add, .. }
    ));
    assert!(matches!(blocks[1].instr, Instruction::Ecall));
}

#[test]
fn lift_loop_of_two_blocks_visits_each_pc_once() {
    // a two-instruction loop: jump forward, then jump back
    let emu = emu_with(&[enc_jal(0, 8), ECALL, enc_jal(0, -8)]);
    let blocks = lift_region(&emu, VirtAddr(CODE)).unwrap();
    let pcs: Vec<u64> = blocks.iter().map(|b| b.pc).collect();
    assert!(pcs.contains(&(CODE as u64)));
    assert!(pcs.contains(&((CODE + 8) as u64)));
    // no counter is lifted twice
    for i in 0..pcs.len() {
        for j in (i + 1)..pcs.len() {
            assert_ne!(pcs[i], pcs[j]);
        }
    }
}

#[test]
fn lift_branch_covers_both_arms_and_calls_leave_the_unit() {
    let emu = emu_with(&[
        enc_b(0, 0, 0, 8),  // beq x0, x0, +8
        ECALL,
        enc_jal(1, 16),     // a call: its target is not lifted
        ECALL,
    ]);
    let blocks = lift_region(&emu, VirtAddr(CODE)).unwrap();
    let pcs: Vec<u64> = blocks.iter().map(|b| b.pc).collect();
    assert!(pcs.contains(&((CODE + 4) as u64)));
    assert!(pcs.contains(&((CODE + 8) as u64)));
    assert!(!pcs.contains(&((CODE + 8 + 16) as u64)));
}

#[test]
fn lift_notes_breakpoints_and_rejects_bad_regions() {
    let mut emu = emu_with(&[ECALL, ECALL, enc_jal(0, -8)]);
    emu.add_breakpoint(VirtAddr(CODE), BreakpointHook::Malloc);
    let blocks = lift_region(&emu, VirtAddr(CODE)).unwrap();
    assert!(blocks[0].breakpoint);
    assert!(!blocks[1].breakpoint);

    // lifting an undecodable word is an invalid opcode
    let emu = emu_with(&[0xFFFF_FFFF]);
    assert_eq!(
        lift_region(&emu, VirtAddr(CODE)).unwrap_err(),
        VmExit::InvalidOpcode
    );

    // lifting from a non-executable counter is an execution fault
    let emu = emu_with(&[ECALL]);
    assert!(matches!(
        lift_region(&emu, VirtAddr(0x90000)).unwrap_err(),
        VmExit::ExecFault(_)
    ));
}

#[test]
fn coverage_edges_report_once_per_bitmap() {
    // a loop over two basic blocks: entry jump, body jump, back edge
    let mut bm = vec![0u64; 1024];
    let edges: [(u64, u64); 3] = [(0x100, 0x10C), (0x10C, 0x104), (0x104, 0x100)];
    for &(f, t) in &edges {
        assert!(record_edge(&mut bm, f, t));
    }
    let bits: u32 = bm.iter().map(|w| w.count_ones()).sum();
    assert!(bits >= 2);
    // re-running the loop reports nothing new on the same edges
    for _ in 0..10 {
        for &(f, t) in &edges {
            assert!(!record_edge(&mut bm, f, t));
        }
    }
    let bits_after: u32 = bm.iter().map(|w| w.count_ones()).sum();
    assert_eq!(bits, bits_after);
}

#[test]
fn mirrored_edges_share_a_slot() {
    // the mixer combines the two ends with exclusive or, so an edge and
    // its exact mirror land on the same bitmap slot
    let mut bm = vec![0u64; 1024];
    assert!(record_edge(&mut bm, 0x100, 0x200));
    assert!(!record_edge(&mut bm, 0x200, 0x100));
}

#[test]
fn run_jit_reports_loop_edges_once() {
    // a cycle of three jumps: entry to 0x10C, back to 0x104, back to the
    // entry; the guest spins until the instruction budget runs out
    let prog = [enc_jal(0, 12), enc_jal(0, -4), ECALL, enc_jal(0, -8)];
    let mut emu = emu_with(&prog);
    emu.state.timeout = 100;
    let mut bm = vec![0u64; 1024];
    let mut edges: Vec<(u64, u64)> = Vec::new();
    let mut instrs = 0u64;
    let exit = emu.run_jit(&mut instrs, &mut bm, &mut edges).unwrap_err();
    assert_eq!(exit, VmExit::Timeout);
    // each edge of the cycle is reported exactly once
    assert_eq!(edges.len(), 3);
    assert!(edges.contains(&(CODE as u64, (CODE + 12) as u64)));
    assert!(edges.contains(&((CODE + 12) as u64, (CODE + 4) as u64)));
    assert!(edges.contains(&((CODE + 4) as u64, CODE as u64)));
    let bits: u32 = bm.iter().map(|w| w.count_ones()).sum();
    assert!(bits >= 2);
    // a fresh run over the same bitmap reports no further coverage
    let mut emu2 = emu_with(&prog);
    emu2.state.timeout = 100;
    let mut edges2: Vec<(u64, u64)> = Vec::new();
    let exit = emu2.run_jit(&mut instrs, &mut bm, &mut edges2).unwrap_err();
    assert_eq!(exit, VmExit::Timeout);
    assert!(edges2.is_empty());
}

#[test]
fn run_dispatches_on_the_jit_toggle() {
    // plain interpretation leaves the coverage state untouched
    let mut emu = emu_with(&[enc_jal(0, 8), ECALL, ECALL]);
    let mut bm = vec![0u64; 1024];
    let mut edges: Vec<(u64, u64)> = Vec::new();
    let mut instrs = 0u64;
    assert_eq!(
        emu.run(&mut instrs, &mut bm, &mut edges).unwrap_err(),
        VmExit::Syscall
    );
    assert!(edges.is_empty());
    assert!(bm.iter().all(|w| *w == 0));
    // through the instrumented path the jump's edge is recorded
    let mut emu = emu_with(&[enc_jal(0, 8), ECALL, ECALL]).enable_jit();
    assert_eq!(
        emu.run(&mut instrs, &mut bm, &mut edges).unwrap_err(),
        VmExit::Syscall
    );
    assert_eq!(edges, vec![(CODE as u64, (CODE + 8) as u64)]);
}

#[test]
fn jitcache_first_install_wins() {
    let mut cache = JitCache::new(VirtAddr(1024 * 1024));
    assert_eq!(cache.lookup(VirtAddr(0x100)), None);
    assert_eq!(cache.add_mapping(VirtAddr(0x100), 0xDEAD), 0xDEAD);
    assert_eq!(cache.lookup(VirtAddr(0x100)), Some(0xDEAD));
    // a second installation returns the first entry unchanged
    assert_eq!(cache.add_mapping(VirtAddr(0x100), 0xBEEF), 0xDEAD);
    assert_eq!(cache.lookup(VirtAddr(0x100)), Some(0xDEAD));
    assert_eq!(cache.lookup(VirtAddr(0x104)), None);
}

#[test]
fn jitcache_claims_each_content_hash_once() {
    let mut cache = JitCache::new(VirtAddr(4096));
    assert!(cache.claim_compile(0xABCDEF));
    assert!(!cache.claim_compile(0xABCDEF));
    assert!(cache.claim_compile(0x123456));
}

#[test]
fn exit_dispatch_matches_the_protocol() {
    assert_eq!(jit_exit_action(ExitReason::NotSet), JitAction::LogicError);
    assert_eq!(
        jit_exit_action(ExitReason::IndirectBranch),
        JitAction::ChainOrLift
    );
    assert_eq!(
        jit_exit_action(ExitReason::Coverage),
        JitAction::RecordCoverage
    );
    assert_eq!(
        jit_exit_action(ExitReason::Ecall),
        JitAction::Finish(VmExit::Syscall)
    );
    assert_eq!(
        jit_exit_action(ExitReason::Ebreak),
        JitAction::Finish(VmExit::Ebreak)
    );
    assert_eq!(
        jit_exit_action(ExitReason::Timeout),
        JitAction::Finish(VmExit::Timeout)
    );
    assert_eq!(
        jit_exit_action(ExitReason::InvalidOpcode),
        JitAction::Finish(VmExit::InvalidOpcode)
    );
    assert_eq!(jit_exit_action(ExitReason::ReadFault), JitAction::PreciseFault);
    assert_eq!(jit_exit_action(ExitReason::WriteFault), JitAction::PreciseFault);
    assert_eq!(
        jit_exit_action(ExitReason::Breakpoint),
        JitAction::RunBreakpoint
    );
}

#[test]
fn crash_keys_bucket_faulting_addresses() {
    let pc = VirtAddr(0x1234);
    assert_eq!(
        crash_key(&VmExit::ReadFault(VirtAddr(100)), pc),
        Some((pc, FaultType::Read, AddressType::Null))
    );
    assert_eq!(
        crash_key(&VmExit::WriteFault(VirtAddr(usize::MAX)), pc),
        Some((pc, FaultType::Write, AddressType::Negative))
    );
    assert_eq!(
        crash_key(&VmExit::UninitFault(VirtAddr(0x100000)), pc),
        Some((pc, FaultType::Uninit, AddressType::Normal))
    );
    assert_eq!(crash_key(&VmExit::Syscall, pc), None);
    assert_eq!(crash_key(&VmExit::Timeout, pc), None);
    assert_eq!(
        crash_key(&VmExit::InvalidFree(VirtAddr(0x5000)), pc),
        Some((pc, FaultType::Free, AddressType::Null))
    );
}

#[test]
fn address_buckets_at_their_boundaries() {
    assert_eq!(AddressType::of(VirtAddr(0)), AddressType::Null);
    assert_eq!(AddressType::of(VirtAddr(32767)), AddressType::Null);
    assert_eq!(AddressType::of(VirtAddr(32768)), AddressType::Normal);
    assert_eq!(
        AddressType::of(VirtAddr(usize::MAX)),
        AddressType::Negative
    );
    assert_eq!(
        AddressType::of(VirtAddr((-32768i64) as u64 as usize)),
        AddressType::Negative
    );
    assert_eq!(
        AddressType::of(VirtAddr((-32769i64) as u64 as usize)),
        AddressType::Normal
    );
}

#[test]
fn rng_is_deterministic_and_mutation_keeps_length() {
    let mut a = Rng::new(7);
    let mut b = Rng::new(7);
    for _ in 0..10 {
        assert_eq!(a.rand(), b.rand());
    }
    let mut input = vec![0u8; 64];
    let mut rng = Rng::new(99);
    mutate_input(&mut input, &mut rng);
    assert_eq!(input.len(), 64);
    let mut empty: Vec<u8> = Vec::new();
    mutate_input(&mut empty, &mut rng);
    assert!(empty.is_empty());
}

#[test]
fn is_crash_classifies_exits() {
    assert_eq!(
        VmExit::AddressMiss(VirtAddr(5), 8).is_crash(),
        Some((FaultType::Bounds, VirtAddr(5)))
    );
    assert_eq!(
        VmExit::ExecFault(VirtAddr(9)).is_crash(),
        Some((FaultType::Exec, VirtAddr(9)))
    );
    assert_eq!(
        VmExit::InvalidOpcode.is_crash(),
        Some((FaultType::InvalidOpcode, VirtAddr(0)))
    );
    assert_eq!(VmExit::Syscall.is_crash(), None);
    assert_eq!(VmExit::Exit.is_crash(), None);
    assert_eq!(VmExit::Ebreak.is_crash(), None);
}
