//! Tests for the interpreter: instruction semantics against the reference
//! model, register zero behavior, breakpoint hooks, and the syscall shims.

use rvemu::decode::Register;
use rvemu::emulator::{EmuFile, Emulator, VmExit};
use rvemu::hooks::{self, BreakpointHook};
use rvemu::mmu::{Perm, VirtAddr, PERM_EXEC, PERM_RAW, PERM_READ, PERM_WRITE};
use rvemu::syscalls::handle_syscall;

const CODE: usize = 0x100;

fn enc_i(imm: i32, rs1: u32, f3: u32, rd: u32, op: u32) -> u32 {
    ((imm as u32) << 20) | (rs1 << 15) | (f3 << 12) | (rd << 7) | op
}

fn enc_r(f7: u32, rs2: u32, rs1: u32, f3: u32, rd: u32, op: u32) -> u32 {
    (f7 << 25) | (rs2 << 20) | (rs1 << 15) | (f3 << 12) | (rd << 7) | op
}

fn enc_b(f3: u32, rs1: u32, rs2: u32, imm: i32) -> u32 {
    let v = imm as u32;
    (((v >> 12) & 1) << 31)
        | (((v >> 5) & 0x3F) << 25)
        | (rs2 << 20)
        | (rs1 << 15)
        | (f3 << 12)
        | (((v >> 1) & 0xF) << 8)
        | (((v >> 11) & 1) << 7)
        | 0x63
}

fn enc_jal(rd: u32, imm: i32) -> u32 {
    let v = imm as u32;
    (((v >> 20) & 1) << 31)
        | (((v >> 1) & 0x3FF) << 21)
        | (((v >> 11) & 1) << 20)
        | (((v >> 12) & 0xFF) << 12)
        | (rd << 7)
        | 0x6F
}

fn enc_s(f3: u32, rs1: u32, rs2: u32, imm: i32) -> u32 {
    let v = imm as u32;
    (((v >> 5) & 0x7F) << 25) | (rs2 << 20) | (rs1 << 15) | (f3 << 12) | ((v & 0x1F) << 7) | 0x23
}

const ECALL: u32 = 0x0000_0073;
const EBREAK: u32 = 0x0010_0073;

/// An emulator with a flat readable/writable/executable arena and the
/// given instruction words at `CODE`, with the counter on the first one.
fn emu_with(prog: &[u32]) -> Emulator {
    let mut emu = Emulator::new(1024 * 1024);
    emu.memory
        .set_permissions(VirtAddr(0), 64 * 1024, Perm(PERM_READ | PERM_WRITE | PERM_EXEC))
        .unwrap();
    let mut bytes = Vec::new();
    for w in prog {
        bytes.extend_from_slice(&[
            (*w & 0xff) as u8,
            ((*w >> 8) & 0xff) as u8,
            ((*w >> 16) & 0xff) as u8,
            ((*w >> 24) & 0xff) as u8,
        ]);
    }
    emu.memory.write_from(VirtAddr(CODE), &bytes).unwrap();
    emu.set_reg(Register::Pc, CODE as u64);
    emu
}

/// Run one instruction that computes into `rd` and return the result.
fn run_one(inst: u32, setup: &[(Register, u64)], rd: Register) -> u64 {
    let mut emu = emu_with(&[inst]);
    for (r, v) in setup {
        emu.set_reg(*r, *v);
    }
    emu.step().unwrap();
    assert_eq!(emu.reg(Register::Pc), (CODE + 4) as u64);
    emu.reg(rd)
}

#[test]
fn addi_then_addi_then_ecall() {
    // addi x1, x0, 5 ; addi x2, x1, -3 ; ecall
    let mut emu = emu_with(&[
        enc_i(5, 0, 0, 1, 0x13),
        enc_i(-3, 1, 0, 2, 0x13),
        ECALL,
    ]);
    let mut instrs = 0u64;
    let exit = emu.run_emu(&mut instrs).unwrap_err();
    assert_eq!(exit, VmExit::Syscall);
    assert_eq!(emu.reg(Register::Ra), 5);
    assert_eq!(emu.reg(Register::Sp), 2);
    // the counter rests on the ecall instruction
    assert_eq!(emu.reg(Register::Pc), (CODE + 8) as u64);
    assert_eq!(instrs, 3);
}

#[test]
fn register_zero_reads_zero_whatever_is_written() {
    let mut emu = emu_with(&[enc_i(123, 0, 0, 0, 0x13), ECALL]);
    emu.set_reg(Register::Zero, 77);
    assert_eq!(emu.reg(Register::Zero), 0);
    let mut instrs = 0u64;
    // addi x0, x0, 123 retires and is dropped
    let exit = emu.run_emu(&mut instrs).unwrap_err();
    assert_eq!(exit, VmExit::Syscall);
    assert_eq!(emu.reg(Register::Zero), 0);
}

#[test]
fn arithmetic_matches_reference_model() {
    let a = Register::T0;
    let b = Register::T1;
    // ADD wraps
    assert_eq!(
        run_one(enc_r(0, 6, 5, 0, 7, 0x33), &[(a, u64::MAX), (b, 2)], Register::T2),
        1
    );
    // SUB wraps
    assert_eq!(
        run_one(enc_r(0x20, 6, 5, 0, 7, 0x33), &[(a, 0), (b, 1)], Register::T2),
        u64::MAX
    );
    // SLT signed
    assert_eq!(
        run_one(enc_r(0, 6, 5, 2, 7, 0x33), &[(a, u64::MAX), (b, 0)], Register::T2),
        1
    );
    // SLTU unsigned
    assert_eq!(
        run_one(enc_r(0, 6, 5, 3, 7, 0x33), &[(a, u64::MAX), (b, 0)], Register::T2),
        0
    );
    // XOR, OR, AND
    assert_eq!(
        run_one(enc_r(0, 6, 5, 4, 7, 0x33), &[(a, 0b1100), (b, 0b1010)], Register::T2),
        0b0110
    );
    assert_eq!(
        run_one(enc_r(0, 6, 5, 6, 7, 0x33), &[(a, 0b1100), (b, 0b1010)], Register::T2),
        0b1110
    );
    assert_eq!(
        run_one(enc_r(0, 6, 5, 7, 7, 0x33), &[(a, 0b1100), (b, 0b1010)], Register::T2),
        0b1000
    );
}

#[test]
fn shift_boundaries_64bit() {
    let a = Register::T0;
    let b = Register::T1;
    // SLL by 0 and by 63
    assert_eq!(
        run_one(enc_r(0, 6, 5, 1, 7, 0x33), &[(a, 0x5), (b, 0)], Register::T2),
        0x5
    );
    assert_eq!(
        run_one(enc_r(0, 6, 5, 1, 7, 0x33), &[(a, 0x3), (b, 63)], Register::T2),
        0x8000_0000_0000_0000
    );
    // SRL by 63
    assert_eq!(
        run_one(enc_r(0, 6, 5, 5, 7, 0x33), &[(a, u64::MAX), (b, 63)], Register::T2),
        1
    );
    // SRA by 63 keeps the sign
    assert_eq!(
        run_one(enc_r(0x20, 6, 5, 5, 7, 0x33), &[(a, 0x8000_0000_0000_0000), (b, 63)], Register::T2),
        u64::MAX
    );
    // shift amounts are masked to six bits: 64 acts as 0
    assert_eq!(
        run_one(enc_r(0, 6, 5, 1, 7, 0x33), &[(a, 0x5), (b, 64)], Register::T2),
        0x5
    );
}

#[test]
fn shift_boundaries_32bit() {
    let a = Register::T0;
    let b = Register::T1;
    // SLLW by 31 then sign extension
    assert_eq!(
        run_one(enc_r(0, 6, 5, 1, 7, 0x3B), &[(a, 1), (b, 31)], Register::T2),
        0xFFFF_FFFF_8000_0000
    );
    // SRLW by 0 sign extends the low word
    assert_eq!(
        run_one(enc_r(0, 6, 5, 5, 7, 0x3B), &[(a, 0xFFFF_FFFF), (b, 0)], Register::T2),
        0xFFFF_FFFF_FFFF_FFFF
    );
    // SRAW by 31
    assert_eq!(
        run_one(enc_r(0x20, 6, 5, 5, 7, 0x3B), &[(a, 0x8000_0000), (b, 31)], Register::T2),
        u64::MAX
    );
    // ADDIW wraps in 32 bits then sign extends
    assert_eq!(
        run_one(enc_i(1, 5, 0, 7, 0x1B), &[(a, 0x7FFF_FFFF)], Register::T2),
        0xFFFF_FFFF_8000_0000
    );
}

#[test]
fn branch_boundaries() {
    let cases: &[(u32, u64, u64, bool)] = &[
        // BEQ at equality and just off it
        (0, 7, 7, true),
        (0, 7, 8, false),
        // BNE
        (1, 7, 8, true),
        // BLT at signed MIN/MAX
        (4, 0x8000_0000_0000_0000, 0x7FFF_FFFF_FFFF_FFFF, true),
        (4, 0x7FFF_FFFF_FFFF_FFFF, 0x8000_0000_0000_0000, false),
        // BGE at equality
        (5, 9, 9, true),
        // BLTU at 0 and u64::MAX
        (6, 0, u64::MAX, true),
        (6, u64::MAX, 0, false),
        // BGEU at u64::MAX
        (7, u64::MAX, u64::MAX, true),
        (7, 0, u64::MAX, false),
    ];
    for &(f3, a, b, taken) in cases {
        let mut emu = emu_with(&[enc_b(f3, 5, 6, 16)]);
        emu.set_reg(Register::T0, a);
        emu.set_reg(Register::T1, b);
        emu.step().unwrap();
        let expect = if taken { CODE + 16 } else { CODE + 4 };
        assert_eq!(emu.reg(Register::Pc), expect as u64, "f3={}", f3);
    }
}

#[test]
fn jal_and_jalr_link_and_jump() {
    let mut emu = emu_with(&[enc_jal(1, 12)]);
    emu.step().unwrap();
    assert_eq!(emu.reg(Register::Ra), (CODE + 4) as u64);
    assert_eq!(emu.reg(Register::Pc), (CODE + 12) as u64);

    // jalr x1, 8(x5)
    let mut emu = emu_with(&[enc_i(8, 5, 0, 1, 0x67)]);
    emu.set_reg(Register::T0, 0x2000);
    emu.step().unwrap();
    assert_eq!(emu.reg(Register::Ra), (CODE + 4) as u64);
    assert_eq!(emu.reg(Register::Pc), 0x2008);
}

#[test]
fn load_store_through_the_guest() {
    // sd t1, 0(t0) ; ld t2, 0(t0)
    let mut emu = emu_with(&[enc_s(3, 5, 6, 0), enc_i(0, 5, 3, 7, 0x03)]);
    emu.set_reg(Register::T0, 0x8000);
    emu.set_reg(Register::T1, 0x1122_3344_5566_7788);
    emu.step().unwrap();
    emu.step().unwrap();
    assert_eq!(emu.reg(Register::T2), 0x1122_3344_5566_7788);

    // lb sign extends: write 0x80, read back as i8
    let mut emu = emu_with(&[enc_s(0, 5, 6, 0), enc_i(0, 5, 0, 7, 0x03)]);
    emu.set_reg(Register::T0, 0x8000);
    emu.set_reg(Register::T1, 0x80);
    emu.step().unwrap();
    emu.step().unwrap();
    assert_eq!(emu.reg(Register::T2), 0xFFFF_FFFF_FFFF_FF80);
}

#[test]
fn load_fault_reports_exact_byte_and_stops() {
    // ld from an unmapped address
    let mut emu = emu_with(&[enc_i(0, 5, 3, 7, 0x03)]);
    emu.set_reg(Register::T0, 0x80000);
    let e = emu.step().unwrap_err();
    assert_eq!(e, VmExit::ReadFault(VirtAddr(0x80000)));
    // the counter did not advance
    assert_eq!(emu.reg(Register::Pc), CODE as u64);
}

#[test]
fn ebreak_and_invalid_opcode_exit() {
    let mut emu = emu_with(&[EBREAK]);
    assert_eq!(emu.step().unwrap_err(), VmExit::Ebreak);
    let mut emu = emu_with(&[0xFFFF_FFFF]);
    assert_eq!(emu.step().unwrap_err(), VmExit::InvalidOpcode);
}

#[test]
fn unaligned_or_nonexec_counter_is_exec_fault() {
    let mut emu = emu_with(&[ECALL]);
    emu.set_reg(Register::Pc, (CODE + 2) as u64);
    assert_eq!(
        emu.step().unwrap_err(),
        VmExit::ExecFault(VirtAddr(CODE + 2))
    );
    emu.set_reg(Register::Pc, 0x90000);
    assert_eq!(emu.step().unwrap_err(), VmExit::ExecFault(VirtAddr(0x90000)));
}

#[test]
fn run_emu_times_out() {
    // jal x0, 0 spins in place
    let mut emu = emu_with(&[enc_jal(0, 0)]);
    emu.state.timeout = 1000;
    let mut instrs = 0u64;
    assert_eq!(emu.run_emu(&mut instrs).unwrap_err(), VmExit::Timeout);
}

#[test]
fn breakpoint_hook_runs_before_the_instruction() {
    let mut emu = emu_with(&[ECALL]);
    emu.add_breakpoint(VirtAddr(CODE), BreakpointHook::EndCase);
    let mut instrs = 0u64;
    assert_eq!(emu.run_emu(&mut instrs).unwrap_err(), VmExit::Exit);
    assert_eq!(instrs, 0);
}

#[test]
fn malloc_hook_allocates_and_returns() {
    let mut emu = emu_with(&[ECALL]);
    emu.set_reg(Register::A1, 64);
    emu.set_reg(Register::Ra, 0x4000);
    hooks::malloc_bp(&mut emu).unwrap();
    let base = emu.reg(Register::A0);
    assert!(base != 0);
    assert_eq!(emu.reg(Register::Pc), 0x4000);
    assert_eq!(emu.memory.get_alc(VirtAddr(base as usize)), Some(64));
    emu.memory.write_word(VirtAddr(base as usize), 9, 1).unwrap();
}

#[test]
fn calloc_hook_zeroes_and_free_hook_releases() {
    let mut emu = emu_with(&[ECALL]);
    emu.set_reg(Register::A1, 4);
    emu.set_reg(Register::A2, 8);
    emu.set_reg(Register::Ra, 0x4000);
    hooks::calloc_bp(&mut emu).unwrap();
    let base = emu.reg(Register::A0);
    assert!(base != 0);
    // calloc memory reads back as zero
    assert_eq!(emu.memory.read_word(VirtAddr(base as usize), 8).unwrap(), 0);
    // free it through the hook
    emu.set_reg(Register::A1, base);
    hooks::free_bp(&mut emu).unwrap();
    assert!(emu.memory.write_word(VirtAddr(base as usize), 1, 1).is_err());
}

#[test]
fn free_hook_rejects_bad_base_and_accepts_null() {
    let mut emu = emu_with(&[ECALL]);
    emu.set_reg(Register::A1, 0);
    emu.set_reg(Register::Ra, 0x4000);
    hooks::free_bp(&mut emu).unwrap();
    assert_eq!(emu.reg(Register::Pc), 0x4000);
    emu.set_reg(Register::A1, 0x1234);
    assert_eq!(
        hooks::free_bp(&mut emu).unwrap_err(),
        VmExit::InvalidFree(VirtAddr(0x1234))
    );
}

#[test]
fn realloc_hook_copies_initialized_prefix() {
    let mut emu = emu_with(&[ECALL]);
    emu.set_reg(Register::A1, 16);
    emu.set_reg(Register::Ra, 0x4000);
    hooks::malloc_bp(&mut emu).unwrap();
    let old = emu.reg(Register::A0);
    emu.memory.write_word(VirtAddr(old as usize), 0xAB, 1).unwrap();
    emu.memory.write_word(VirtAddr(old as usize + 7), 0xCD, 1).unwrap();
    // grow it
    emu.set_reg(Register::A1, old);
    emu.set_reg(Register::A2, 32);
    hooks::realloc_bp(&mut emu).unwrap();
    let newb = emu.reg(Register::A0);
    assert!(newb != 0 && newb != old);
    assert_eq!(emu.memory.read_word(VirtAddr(newb as usize), 1).unwrap(), 0xAB);
    assert_eq!(
        emu.memory.read_word(VirtAddr(newb as usize + 7), 1).unwrap(),
        0xCD
    );
    // a never-written byte of the old allocation stays uninitialized
    assert!(matches!(
        emu.memory.read_word(VirtAddr(newb as usize + 8), 1),
        Err(VmExit::UninitFault(_))
    ));
    // the old allocation is gone
    assert_eq!(emu.memory.get_alc(VirtAddr(old as usize)), None);
}

#[test]
fn fork_and_reset_emulator_restores_registers_and_memory() {
    let mut parent = emu_with(&[ECALL]);
    parent.set_reg(Register::A0, 42);
    let mut child = parent.fork();
    child.set_reg(Register::A0, 7);
    child.memory.write_word(VirtAddr(0x8000), 0x1234, 2).unwrap();
    child.reset(&parent);
    assert_eq!(child.reg(Register::A0), 42);
    assert_eq!(child.memory.read_word(VirtAddr(0x8000), 2).unwrap(), 0);
    assert_eq!(child.memory.dirty_len(), 0);
}

#[test]
fn counted_loop_runs_to_completion() {
    // x5 counts to 5: addi x5, x0, 0 ; addi x5, x5, 1 ; bne x5, x6, -4 ; ecall
    let mut emu = emu_with(&[
        enc_i(0, 0, 0, 5, 0x13),
        enc_i(1, 5, 0, 5, 0x13),
        enc_b(1, 5, 6, -4),
        ECALL,
    ]);
    emu.set_reg(Register::T1, 5);
    let mut instrs = 0u64;
    assert_eq!(emu.run_emu(&mut instrs).unwrap_err(), VmExit::Syscall);
    assert_eq!(emu.reg(Register::T0), 5);
    assert_eq!(emu.reg(Register::Pc), (CODE + 12) as u64);
    assert_eq!(instrs, 12);
}

#[test]
fn syscall_brk_and_exit() {
    let mut emu = emu_with(&[ECALL]);
    emu.set_reg(Register::A7, 214);
    emu.set_reg(Register::A0, 0);
    handle_syscall(&mut emu).unwrap();
    assert_eq!(emu.reg(Register::A0), 0);
    emu.set_reg(Register::A7, 93);
    assert_eq!(handle_syscall(&mut emu).unwrap_err(), VmExit::Exit);
}

#[test]
fn syscall_write_to_stdout_and_bad_fd() {
    let mut emu = emu_with(&[ECALL]);
    emu.memory.write_word(VirtAddr(0x8000), 0x41, 1).unwrap();
    emu.set_reg(Register::A7, 64);
    emu.set_reg(Register::A0, 1);
    emu.set_reg(Register::A1, 0x8000);
    emu.set_reg(Register::A2, 1);
    handle_syscall(&mut emu).unwrap();
    assert_eq!(emu.reg(Register::A0), 1);
    emu.set_reg(Register::A7, 64);
    emu.set_reg(Register::A0, 99);
    handle_syscall(&mut emu).unwrap();
    assert_eq!(emu.reg(Register::A0), u64::MAX);
}

#[test]
fn syscall_open_read_lseek_close_on_fuzz_input() {
    let mut emu = emu_with(&[ECALL]);
    emu.fuzz_input = vec![10, 20, 30, 40, 50];
    // "testfn\0" at 0x8000
    emu.memory
        .write_from(VirtAddr(0x8000), &[116, 101, 115, 116, 102, 110, 0])
        .unwrap();
    emu.set_reg(Register::A7, 1024);
    emu.set_reg(Register::A0, 0x8000);
    emu.set_reg(Register::A1, 0);
    handle_syscall(&mut emu).unwrap();
    let fd = emu.reg(Register::A0);
    assert_eq!(fd, 3);
    assert_eq!(
        emu.files.get_file(fd as usize),
        Some(Some(EmuFile::FuzzInput { cursor: 0 }))
    );

    // read 3 bytes
    emu.set_reg(Register::A7, 63);
    emu.set_reg(Register::A0, fd);
    emu.set_reg(Register::A1, 0x9000);
    emu.set_reg(Register::A2, 3);
    handle_syscall(&mut emu).unwrap();
    assert_eq!(emu.reg(Register::A0), 3);
    assert_eq!(emu.memory.read_word(VirtAddr(0x9000), 1).unwrap(), 10);
    assert_eq!(emu.memory.read_word(VirtAddr(0x9002), 1).unwrap(), 30);

    // read the rest: only two bytes left
    emu.set_reg(Register::A7, 63);
    emu.set_reg(Register::A0, fd);
    emu.set_reg(Register::A1, 0x9100);
    emu.set_reg(Register::A2, 100);
    handle_syscall(&mut emu).unwrap();
    assert_eq!(emu.reg(Register::A0), 2);

    // seek back to 1 from the start, then to the end
    emu.set_reg(Register::A7, 62);
    emu.set_reg(Register::A0, fd);
    emu.set_reg(Register::A1, 1);
    emu.set_reg(Register::A2, 0);
    handle_syscall(&mut emu).unwrap();
    assert_eq!(emu.reg(Register::A0), 1);
    emu.set_reg(Register::A7, 62);
    emu.set_reg(Register::A0, fd);
    emu.set_reg(Register::A1, 0);
    emu.set_reg(Register::A2, 2);
    handle_syscall(&mut emu).unwrap();
    assert_eq!(emu.reg(Register::A0), 5);

    // close it; closing again fails
    emu.set_reg(Register::A7, 57);
    emu.set_reg(Register::A0, fd);
    handle_syscall(&mut emu).unwrap();
    assert_eq!(emu.reg(Register::A0), 0);
    emu.set_reg(Register::A7, 57);
    emu.set_reg(Register::A0, fd);
    handle_syscall(&mut emu).unwrap();
    assert_eq!(emu.reg(Register::A0), u64::MAX);
}

#[test]
fn syscall_open_unknown_name_fails() {
    let mut emu = emu_with(&[ECALL]);
    emu.memory
        .write_from(VirtAddr(0x8000), &[110, 111, 112, 101, 0])
        .unwrap();
    emu.set_reg(Register::A7, 1024);
    emu.set_reg(Register::A0, 0x8000);
    emu.set_reg(Register::A1, 0);
    handle_syscall(&mut emu).unwrap();
    assert_eq!(emu.reg(Register::A0), u64::MAX);
}

#[test]
fn syscall_fstat_reports_input_size() {
    let mut emu = emu_with(&[ECALL]);
    emu.fuzz_input = vec![0; 600];
    emu.memory
        .write_from(VirtAddr(0x8000), &[116, 101, 115, 116, 102, 110, 0])
        .unwrap();
    emu.set_reg(Register::A7, 1024);
    emu.set_reg(Register::A0, 0x8000);
    emu.set_reg(Register::A1, 0);
    handle_syscall(&mut emu).unwrap();
    let fd = emu.reg(Register::A0);
    emu.set_reg(Register::A7, 80);
    emu.set_reg(Register::A0, fd);
    emu.set_reg(Register::A1, 0x9000);
    handle_syscall(&mut emu).unwrap();
    assert_eq!(emu.reg(Register::A0), 0);
    // st_size sits 48 bytes into the stat record
    assert_eq!(emu.memory.read_word(VirtAddr(0x9000 + 48), 8).unwrap(), 600);
    // st_blocks: (600 + 511) / 512 = 2, at offset 64
    assert_eq!(emu.memory.read_word(VirtAddr(0x9000 + 64), 8).unwrap(), 2);
}

#[test]
fn alloc_file_reuses_closed_descriptors() {
    let mut emu = emu_with(&[ECALL]);
    assert_eq!(emu.alloc_file(), 3);
    emu.files.set_file(1, None);
    assert_eq!(emu.alloc_file(), 1);
}
