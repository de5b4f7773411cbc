//! Tests for instruction decoding and the stat record serialization.

use rvemu::decode::{decode, AluOp, AluWOp, BranchOp, Instruction, LoadOp, Register, StoreOp};
use rvemu::syscalls::{stat_to_bytes, Stat};

#[test]
fn decode_immediate_arithmetic() {
    // addi x1, x0, 5
    assert_eq!(
        decode(0x0050_0093),
        Instruction::AluImm { op: AluOp::Add, rd: Register::Ra, rs1: Register::Zero, imm: 5 }
    );
    // addi x2, x1, -3: the immediate is sign extended to 64 bits
    assert_eq!(
        decode(0xFFD0_8113),
        Instruction::AluImm {
            op: AluOp::Add,
            rd: Register::Sp,
            rs1: Register::Ra,
            imm: (-3i64) as u64,
        }
    );
}

#[test]
fn decode_shift_immediates_carry_the_shift_amount() {
    // slli x5, x5, 63
    let slli = (63u32 << 20) | (5 << 15) | (0b001 << 12) | (5 << 7) | 0x13;
    assert_eq!(
        decode(slli),
        Instruction::AluImm { op: AluOp::Sll, rd: Register::T0, rs1: Register::T0, imm: 63 }
    );
    // srai x5, x5, 12: the arithmetic mode bit sits above the shift amount
    let srai = (0b010000u32 << 26) | (12 << 20) | (5 << 15) | (0b101 << 12) | (5 << 7) | 0x13;
    assert_eq!(
        decode(srai),
        Instruction::AluImm { op: AluOp::Sra, rd: Register::T0, rs1: Register::T0, imm: 12 }
    );
    // a bad mode in the shift field is an invalid instruction
    let bad = (0b111111u32 << 26) | (12 << 20) | (5 << 15) | (0b001 << 12) | (5 << 7) | 0x13;
    assert_eq!(decode(bad), Instruction::Invalid);
}

#[test]
fn decode_register_forms_and_word_forms() {
    // sub x7, x5, x6
    let sub = (0x20u32 << 25) | (6 << 20) | (5 << 15) | (0 << 12) | (7 << 7) | 0x33;
    assert_eq!(
        decode(sub),
        Instruction::Alu { op: AluOp::Sub, rd: Register::T2, rs1: Register::T0, rs2: Register::T1 }
    );
    // addw x7, x5, x6
    let addw = (6u32 << 20) | (5 << 15) | (7 << 7) | 0x3B;
    assert_eq!(
        decode(addw),
        Instruction::AluW {
            op: AluWOp::AddW,
            rd: Register::T2,
            rs1: Register::T0,
            rs2: Register::T1,
        }
    );
}

#[test]
fn decode_loads_stores_and_branches() {
    // lw x7, 16(x5)
    let lw = (16u32 << 20) | (5 << 15) | (0b010 << 12) | (7 << 7) | 0x03;
    assert_eq!(
        decode(lw),
        Instruction::Load { op: LoadOp::Lw, rd: Register::T2, rs1: Register::T0, imm: 16 }
    );
    // sd x6, 8(x5): S-type splits its immediate
    let sd = (0u32 << 25) | (6 << 20) | (5 << 15) | (0b011 << 12) | (8 << 7) | 0x23;
    assert_eq!(
        decode(sd),
        Instruction::Store { op: StoreOp::Sd, rs1: Register::T0, rs2: Register::T1, imm: 8 }
    );
    // bne x5, x6, -4: a negative branch offset sign extends
    let bne = match decode(0xFE62_9EE3) {
        Instruction::Branch { op, rs1, rs2, imm } => (op, rs1, rs2, imm),
        other => panic!("decoded {:?}", other),
    };
    assert_eq!(bne.0, BranchOp::Bne);
    assert_eq!(bne.3, (-4i64) as u64);
    // an undefined branch comparison is invalid
    let bad = (0b010u32 << 12) | 0x63;
    assert_eq!(decode(bad), Instruction::Invalid);
}

#[test]
fn decode_traps_and_fences() {
    assert_eq!(decode(0x0000_0073), Instruction::Ecall);
    assert_eq!(decode(0x0010_0073), Instruction::Ebreak);
    assert_eq!(decode(0x0000_000F), Instruction::Fence);
    assert_eq!(decode(0x0020_0073), Instruction::Invalid);
    assert_eq!(decode(0xFFFF_FFFF), Instruction::Invalid);
    assert_eq!(decode(0x0000_0000), Instruction::Invalid);
}

#[test]
fn decode_upper_immediates_and_jumps() {
    // lui x10, 0x12345
    let lui = (0x12345u32 << 12) | (10 << 7) | 0x37;
    assert_eq!(
        decode(lui),
        Instruction::Lui { rd: Register::A0, imm: 0x1234_5000 }
    );
    // lui with the sign bit set extends into the high half
    let lui_neg = (0x80000u32 << 12) | (10 << 7) | 0x37;
    assert_eq!(
        decode(lui_neg),
        Instruction::Lui { rd: Register::A0, imm: 0xFFFF_FFFF_8000_0000 }
    );
    // jal x1, -8
    match decode(0xFF9F_F0EF) {
        Instruction::Jal { rd, imm } => {
            assert_eq!(rd, Register::Ra);
            assert_eq!(imm, (-8i64) as u64);
        }
        other => panic!("decoded {:?}", other),
    }
}

#[test]
fn stat_record_serializes_little_endian() {
    let mut st = Stat::default();
    st.st_dev = 0x0102_0304_0506_0708;
    st.st_size = 600;
    let bytes = stat_to_bytes(&st);
    assert_eq!(bytes.len(), 128);
    // st_dev leads the record, low byte first
    assert_eq!(&bytes[0..8], &[8, 7, 6, 5, 4, 3, 2, 1]);
    // st_size sits at offset 48
    assert_eq!(bytes[48], 88);
    assert_eq!(bytes[49], 2);
    assert_eq!(bytes[50], 0);
}
