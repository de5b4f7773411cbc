//! RV64I instruction decoding: register names, the raw instruction forms,
//! and the decoded instruction model the interpreter and lifter share.

use vstd::prelude::*;

verus! {

/// 64-bit RISC-V registers, plus the program counter as slot 32.
#[derive(Clone, Copy, Debug, PartialEq, Eq, Structural)]
pub enum Register {
    Zero,
    Ra,
    Sp,
    Gp,
    Tp,
    T0,
    T1,
    T2,
    S0,
    S1,
    A0,
    A1,
    A2,
    A3,
    A4,
    A5,
    A6,
    A7,
    S2,
    S3,
    S4,
    S5,
    S6,
    S7,
    S8,
    S9,
    S10,
    S11,
    T3,
    T4,
    T5,
    T6,
    Pc,
}

impl Register {
    /// The register file slot this register occupies.
    pub open spec fn index(self) -> int {
        match self {
            Register::Zero => 0,
            Register::Ra => 1,
            Register::Sp => 2,
            Register::Gp => 3,
            Register::Tp => 4,
            Register::T0 => 5,
            Register::T1 => 6,
            Register::T2 => 7,
            Register::S0 => 8,
            Register::S1 => 9,
            Register::A0 => 10,
            Register::A1 => 11,
            Register::A2 => 12,
            Register::A3 => 13,
            Register::A4 => 14,
            Register::A5 => 15,
            Register::A6 => 16,
            Register::A7 => 17,
            Register::S2 => 18,
            Register::S3 => 19,
            Register::S4 => 20,
            Register::S5 => 21,
            Register::S6 => 22,
            Register::S7 => 23,
            Register::S8 => 24,
            Register::S9 => 25,
            Register::S10 => 26,
            Register::S11 => 27,
            Register::T3 => 28,
            Register::T4 => 29,
            Register::T5 => 30,
            Register::T6 => 31,
            Register::Pc => 32,
        }
    }

    /// The register file slot, as a value.
    pub fn as_index(self) -> (r: usize)
        ensures
            r == self.index(),
    {
        match self {
            Register::Zero => 0,
            Register::Ra => 1,
            Register::Sp => 2,
            Register::Gp => 3,
            Register::Tp => 4,
            Register::T0 => 5,
            Register::T1 => 6,
            Register::T2 => 7,
            Register::S0 => 8,
            Register::S1 => 9,
            Register::A0 => 10,
            Register::A1 => 11,
            Register::A2 => 12,
            Register::A3 => 13,
            Register::A4 => 14,
            Register::A5 => 15,
            Register::A6 => 16,
            Register::A7 => 17,
            Register::S2 => 18,
            Register::S3 => 19,
            Register::S4 => 20,
            Register::S5 => 21,
            Register::S6 => 22,
            Register::S7 => 23,
            Register::S8 => 24,
            Register::S9 => 25,
            Register::S10 => 26,
            Register::S11 => 27,
            Register::T3 => 28,
            Register::T4 => 29,
            Register::T5 => 30,
            Register::T6 => 31,
            Register::Pc => 32,
        }
    }

    /// The register with a given slot number; slot 32 is the program
    /// counter.
    pub open spec fn spec_from_u32(val: u32) -> Register {
        if val == 0 {
            Register::Zero
        } else if val == 1 {
            Register::Ra
        } else if val == 2 {
            Register::Sp
        } else if val == 3 {
            Register::Gp
        } else if val == 4 {
            Register::Tp
        } else if val == 5 {
            Register::T0
        } else if val == 6 {
            Register::T1
        } else if val == 7 {
            Register::T2
        } else if val == 8 {
            Register::S0
        } else if val == 9 {
            Register::S1
        } else if val == 10 {
            Register::A0
        } else if val == 11 {
            Register::A1
        } else if val == 12 {
            Register::A2
        } else if val == 13 {
            Register::A3
        } else if val == 14 {
            Register::A4
        } else if val == 15 {
            Register::A5
        } else if val == 16 {
            Register::A6
        } else if val == 17 {
            Register::A7
        } else if val == 18 {
            Register::S2
        } else if val == 19 {
            Register::S3
        } else if val == 20 {
            Register::S4
        } else if val == 21 {
            Register::S5
        } else if val == 22 {
            Register::S6
        } else if val == 23 {
            Register::S7
        } else if val == 24 {
            Register::S8
        } else if val == 25 {
            Register::S9
        } else if val == 26 {
            Register::S10
        } else if val == 27 {
            Register::S11
        } else if val == 28 {
            Register::T3
        } else if val == 29 {
            Register::T4
        } else if val == 30 {
            Register::T5
        } else if val == 31 {
            Register::T6
        } else {
            Register::Pc
        }
    }

    /// Decode a register number into a register.
    pub fn from_u32(val: u32) -> (r: Register)
        requires
            val < 33,
        ensures
            r == Register::spec_from_u32(val),
            r.index() == val,
    {
        match val {
            0 => Register::Zero,
            1 => Register::Ra,
            2 => Register::Sp,
            3 => Register::Gp,
            4 => Register::Tp,
            5 => Register::T0,
            6 => Register::T1,
            7 => Register::T2,
            8 => Register::S0,
            9 => Register::S1,
            10 => Register::A0,
            11 => Register::A1,
            12 => Register::A2,
            13 => Register::A3,
            14 => Register::A4,
            15 => Register::A5,
            16 => Register::A6,
            17 => Register::A7,
            18 => Register::S2,
            19 => Register::S3,
            20 => Register::S4,
            21 => Register::S5,
            22 => Register::S6,
            23 => Register::S7,
            24 => Register::S8,
            25 => Register::S9,
            26 => Register::S10,
            27 => Register::S11,
            28 => Register::T3,
            29 => Register::T4,
            30 => Register::T5,
            31 => Register::T6,
            _ => Register::Pc,
        }
    }
}

/// Register numbers taken from an instruction word are five bits, and the
/// shift amounts of the immediate shift forms are at most six.
proof fn lemma_field_bounds(x: u32)
    by (bit_vector)
    ensures
        x & 0b11111 < 32,
        x & 0b111111 < 64,
        x & 0b1111111 < 128,
        x & 0b111 < 8,
{
}

/// An R-type instruction
#[derive(Clone, Copy, Debug)]
pub struct Rtype {
    pub funct7: u32,
    pub rs2: Register,
    pub rs1: Register,
    pub funct3: u32,
    pub rd: Register,
}

impl Rtype {
    /// Split an R-type instruction word into its fields.
    pub fn from_u32(inst: u32) -> (r: Rtype)
        ensures
            r.funct7 == (inst >> 25) & 0b1111111,
            r.rs2 == Register::spec_from_u32((inst >> 20) & 0b11111),
            r.rs1 == Register::spec_from_u32((inst >> 15) & 0b11111),
            r.funct3 == (inst >> 12) & 0b111,
            r.rd == Register::spec_from_u32((inst >> 7) & 0b11111),
    {
        proof {
            lemma_field_bounds(inst >> 20);
            lemma_field_bounds(inst >> 15);
            lemma_field_bounds(inst >> 7);
        }
        Rtype {
            funct7: (inst >> 25) & 0b1111111,
            rs2: Register::from_u32((inst >> 20) & 0b11111),
            rs1: Register::from_u32((inst >> 15) & 0b11111),
            funct3: (inst >> 12) & 0b111,
            rd: Register::from_u32((inst >> 7) & 0b11111),
        }
    }
}

/// The sign extension to 64 bits of the low 12 bits of `x`.
pub open spec fn sext12(x: u32) -> u64 {
    ((((x << 20) as i32) >> 20) as i64) as u64
}

/// The sign extension to 64 bits of the low 13 bits of `x` (branch
/// offsets).
pub open spec fn sext13(x: u32) -> u64 {
    ((((x << 19) as i32) >> 19) as i64) as u64
}

/// The sign extension to 64 bits of the low 21 bits of `x` (jump offsets).
pub open spec fn sext21(x: u32) -> u64 {
    ((((x << 11) as i32) >> 11) as i64) as u64
}

/// An S-type instruction, its immediate already sign extended.
#[derive(Clone, Copy, Debug)]
pub struct Stype {
    pub imm: u64,
    pub rs2: Register,
    pub rs1: Register,
    pub funct3: u32,
}

impl Stype {
    /// Split an S-type instruction word into its fields.
    pub fn from_u32(inst: u32) -> (r: Stype)
        ensures
            r.imm == sext12(((inst >> 25) & 0b1111111) << 5 | ((inst >> 7) & 0b11111)),
            r.rs2 == Register::spec_from_u32((inst >> 20) & 0b11111),
            r.rs1 == Register::spec_from_u32((inst >> 15) & 0b11111),
            r.funct3 == (inst >> 12) & 0b111,
    {
        proof {
            lemma_field_bounds(inst >> 20);
            lemma_field_bounds(inst >> 15);
        }
        let imm115 = (inst >> 25) & 0b1111111;
        let imm40 = (inst >> 7) & 0b11111;
        let imm = (imm115 << 5) | imm40;
        Stype {
            imm: ((((imm << 20) as i32) >> 20) as i64) as u64,
            rs2: Register::from_u32((inst >> 20) & 0b11111),
            rs1: Register::from_u32((inst >> 15) & 0b11111),
            funct3: (inst >> 12) & 0b111,
        }
    }
}

/// A J-type instruction, its immediate already sign extended.
#[derive(Clone, Copy, Debug)]
pub struct Jtype {
    pub imm: u64,
    pub rd: Register,
}

impl Jtype {
    /// The jump offset encoded by a J-type instruction word.
    pub open spec fn spec_imm(inst: u32) -> u64 {
        sext21(
            (((inst >> 31) & 1) << 20) | (((inst >> 12) & 0b11111111) << 12) | (((inst >> 20) & 1)
                << 11) | (((inst >> 21) & 0b1111111111) << 1),
        )
    }

    /// Split a J-type instruction word into its fields.
    pub fn from_u32(inst: u32) -> (r: Jtype)
        ensures
            r.imm == Jtype::spec_imm(inst),
            r.rd == Register::spec_from_u32((inst >> 7) & 0b11111),
    {
        proof {
            lemma_field_bounds(inst >> 7);
        }
        let imm20 = (inst >> 31) & 1;
        let imm101 = (inst >> 21) & 0b1111111111;
        let imm11 = (inst >> 20) & 1;
        let imm1912 = (inst >> 12) & 0b11111111;
        let imm = (imm20 << 20) | (imm1912 << 12) | (imm11 << 11) | (imm101 << 1);
        Jtype { imm: ((((imm << 11) as i32) >> 11) as i64) as u64, rd: Register::from_u32(
            (inst >> 7) & 0b11111,
        ) }
    }
}

/// A B-type instruction, its immediate already sign extended.
#[derive(Clone, Copy, Debug)]
pub struct Btype {
    pub imm: u64,
    pub rs2: Register,
    pub rs1: Register,
    pub funct3: u32,
}

impl Btype {
    /// The branch offset encoded by a B-type instruction word.
    pub open spec fn spec_imm(inst: u32) -> u64 {
        sext13(
            (((inst >> 31) & 1) << 12) | (((inst >> 7) & 1) << 11) | (((inst >> 25) & 0b111111)
                << 5) | (((inst >> 8) & 0b1111) << 1),
        )
    }

    /// Split a B-type instruction word into its fields.
    pub fn from_u32(inst: u32) -> (r: Btype)
        ensures
            r.imm == Btype::spec_imm(inst),
            r.rs2 == Register::spec_from_u32((inst >> 20) & 0b11111),
            r.rs1 == Register::spec_from_u32((inst >> 15) & 0b11111),
            r.funct3 == (inst >> 12) & 0b111,
    {
        proof {
            lemma_field_bounds(inst >> 20);
            lemma_field_bounds(inst >> 15);
        }
        let imm12 = (inst >> 31) & 1;
        let imm105 = (inst >> 25) & 0b111111;
        let imm41 = (inst >> 8) & 0b1111;
        let imm11 = (inst >> 7) & 1;
        let imm = (imm12 << 12) | (imm11 << 11) | (imm105 << 5) | (imm41 << 1);
        Btype {
            imm: ((((imm << 19) as i32) >> 19) as i64) as u64,
            rs2: Register::from_u32((inst >> 20) & 0b11111),
            rs1: Register::from_u32((inst >> 15) & 0b11111),
            funct3: (inst >> 12) & 0b111,
        }
    }
}

/// An I-type instruction, its immediate already sign extended.
#[derive(Clone, Copy, Debug)]
pub struct Itype {
    pub imm: u64,
    pub rs1: Register,
    pub funct3: u32,
    pub rd: Register,
}

impl Itype {
    /// The immediate encoded by an I-type instruction word.
    pub open spec fn spec_imm(inst: u32) -> u64 {
        (((inst as i32) >> 20) as i64) as u64
    }

    /// Split an I-type instruction word into its fields.
    pub fn from_u32(inst: u32) -> (r: Itype)
        ensures
            r.imm == Itype::spec_imm(inst),
            r.rs1 == Register::spec_from_u32((inst >> 15) & 0b11111),
            r.funct3 == (inst >> 12) & 0b111,
            r.rd == Register::spec_from_u32((inst >> 7) & 0b11111),
    {
        proof {
            lemma_field_bounds(inst >> 15);
            lemma_field_bounds(inst >> 7);
        }
        Itype {
            imm: (((inst as i32) >> 20) as i64) as u64,
            rs1: Register::from_u32((inst >> 15) & 0b11111),
            funct3: (inst >> 12) & 0b111,
            rd: Register::from_u32((inst >> 7) & 0b11111),
        }
    }
}

/// A U-type instruction, its immediate already sign extended.
#[derive(Clone, Copy, Debug)]
pub struct Utype {
    pub imm: u64,
    pub rd: Register,
}

impl Utype {
    /// The immediate encoded by a U-type instruction word.
    pub open spec fn spec_imm(inst: u32) -> u64 {
        (((inst & !0xfff) as i32) as i64) as u64
    }

    /// Split a U-type instruction word into its fields.
    pub fn from_u32(inst: u32) -> (r: Utype)
        ensures
            r.imm == Utype::spec_imm(inst),
            r.rd == Register::spec_from_u32((inst >> 7) & 0b11111),
    {
        proof {
            lemma_field_bounds(inst >> 7);
        }
        Utype { imm: (((inst & !0xfff) as i32) as i64) as u64, rd: Register::from_u32(
            (inst >> 7) & 0b11111,
        ) }
    }
}

/// The two-operand integer operations of the 64-bit base set.
#[derive(Clone, Copy, Debug, PartialEq, Eq, Structural)]
pub enum AluOp {
    Add,
    Sub,
    Sll,
    Slt,
    Sltu,
    Xor,
    Srl,
    Sra,
    Or,
    And,
}

/// The 32-bit word operations, whose results are sign extended.
#[derive(Clone, Copy, Debug, PartialEq, Eq, Structural)]
pub enum AluWOp {
    AddW,
    SubW,
    SllW,
    SrlW,
    SraW,
}

/// The conditional branch comparisons.
#[derive(Clone, Copy, Debug, PartialEq, Eq, Structural)]
pub enum BranchOp {
    Beq,
    Bne,
    Blt,
    Bge,
    Bltu,
    Bgeu,
}

/// The load widths and extensions.
#[derive(Clone, Copy, Debug, PartialEq, Eq, Structural)]
pub enum LoadOp {
    Lb,
    Lh,
    Lw,
    Ld,
    Lbu,
    Lhu,
    Lwu,
}

/// The store widths.
#[derive(Clone, Copy, Debug, PartialEq, Eq, Structural)]
pub enum StoreOp {
    Sb,
    Sh,
    Sw,
    Sd,
}

/// One decoded RV64I instruction. Offsets and immediates are already sign
/// extended to 64 bits; shift immediates hold the shift amount.
#[derive(Clone, Copy, Debug, PartialEq, Eq, Structural)]
pub enum Instruction {
    Lui { rd: Register, imm: u64 },
    Auipc { rd: Register, imm: u64 },
    Jal { rd: Register, imm: u64 },
    Jalr { rd: Register, rs1: Register, imm: u64 },
    Branch { op: BranchOp, rs1: Register, rs2: Register, imm: u64 },
    Load { op: LoadOp, rd: Register, rs1: Register, imm: u64 },
    Store { op: StoreOp, rs1: Register, rs2: Register, imm: u64 },
    AluImm { op: AluOp, rd: Register, rs1: Register, imm: u64 },
    Alu { op: AluOp, rd: Register, rs1: Register, rs2: Register },
    AluImmW { op: AluWOp, rd: Register, rs1: Register, imm: u64 },
    AluW { op: AluWOp, rd: Register, rs1: Register, rs2: Register },
    Fence,
    Ecall,
    Ebreak,
    Invalid,
}

/// What instruction an instruction word encodes; any unknown opcode or
/// sub-field combination is invalid.
pub open spec fn spec_decode(inst: u32) -> Instruction {
    let opcode = inst & 0b1111111;
    let funct3 = (inst >> 12) & 0b111;
    let funct7 = (inst >> 25) & 0b1111111;
    let rd = Register::spec_from_u32((inst >> 7) & 0b11111);
    let rs1 = Register::spec_from_u32((inst >> 15) & 0b11111);
    let rs2 = Register::spec_from_u32((inst >> 20) & 0b11111);
    if opcode == 0b0110111 {
        Instruction::Lui { rd, imm: Utype::spec_imm(inst) }
    } else if opcode == 0b0010111 {
        Instruction::Auipc { rd, imm: Utype::spec_imm(inst) }
    } else if opcode == 0b1101111 {
        Instruction::Jal { rd, imm: Jtype::spec_imm(inst) }
    } else if opcode == 0b1100111 {
        if funct3 == 0b000 {
            Instruction::Jalr { rd, rs1, imm: Itype::spec_imm(inst) }
        } else {
            Instruction::Invalid
        }
    } else if opcode == 0b1100011 {
        let imm = Btype::spec_imm(inst);
        if funct3 == 0b000 {
            Instruction::Branch { op: BranchOp::Beq, rs1, rs2, imm }
        } else if funct3 == 0b001 {
            Instruction::Branch { op: BranchOp::Bne, rs1, rs2, imm }
        } else if funct3 == 0b100 {
            Instruction::Branch { op: BranchOp::Blt, rs1, rs2, imm }
        } else if funct3 == 0b101 {
            Instruction::Branch { op: BranchOp::Bge, rs1, rs2, imm }
        } else if funct3 == 0b110 {
            Instruction::Branch { op: BranchOp::Bltu, rs1, rs2, imm }
        } else if funct3 == 0b111 {
            Instruction::Branch { op: BranchOp::Bgeu, rs1, rs2, imm }
        } else {
            Instruction::Invalid
        }
    } else if opcode == 0b0000011 {
        let imm = Itype::spec_imm(inst);
        if funct3 == 0b000 {
            Instruction::Load { op: LoadOp::Lb, rd, rs1, imm }
        } else if funct3 == 0b001 {
            Instruction::Load { op: LoadOp::Lh, rd, rs1, imm }
        } else if funct3 == 0b010 {
            Instruction::Load { op: LoadOp::Lw, rd, rs1, imm }
        } else if funct3 == 0b011 {
            Instruction::Load { op: LoadOp::Ld, rd, rs1, imm }
        } else if funct3 == 0b100 {
            Instruction::Load { op: LoadOp::Lbu, rd, rs1, imm }
        } else if funct3 == 0b101 {
            Instruction::Load { op: LoadOp::Lhu, rd, rs1, imm }
        } else if funct3 == 0b110 {
            Instruction::Load { op: LoadOp::Lwu, rd, rs1, imm }
        } else {
            Instruction::Invalid
        }
    } else if opcode == 0b0100011 {
        let imm = sext12(((inst >> 25) & 0b1111111) << 5 | ((inst >> 7) & 0b11111));
        if funct3 == 0b000 {
            Instruction::Store { op: StoreOp::Sb, rs1, rs2, imm }
        } else if funct3 == 0b001 {
            Instruction::Store { op: StoreOp::Sh, rs1, rs2, imm }
        } else if funct3 == 0b010 {
            Instruction::Store { op: StoreOp::Sw, rs1, rs2, imm }
        } else if funct3 == 0b011 {
            Instruction::Store { op: StoreOp::Sd, rs1, rs2, imm }
        } else {
            Instruction::Invalid
        }
    } else if opcode == 0b0010011 {
        let imm = Itype::spec_imm(inst);
        let shamt = ((inst >> 20) & 0b111111) as u64;
        let mode = (inst >> 26) & 0b111111;
        if funct3 == 0b000 {
            Instruction::AluImm { op: AluOp::Add, rd, rs1, imm }
        } else if funct3 == 0b010 {
            Instruction::AluImm { op: AluOp::Slt, rd, rs1, imm }
        } else if funct3 == 0b011 {
            Instruction::AluImm { op: AluOp::Sltu, rd, rs1, imm }
        } else if funct3 == 0b100 {
            Instruction::AluImm { op: AluOp::Xor, rd, rs1, imm }
        } else if funct3 == 0b110 {
            Instruction::AluImm { op: AluOp::Or, rd, rs1, imm }
        } else if funct3 == 0b111 {
            Instruction::AluImm { op: AluOp::And, rd, rs1, imm }
        } else if funct3 == 0b001 {
            if mode == 0b000000 {
                Instruction::AluImm { op: AluOp::Sll, rd, rs1, imm: shamt }
            } else {
                Instruction::Invalid
            }
        } else if funct3 == 0b101 {
            if mode == 0b000000 {
                Instruction::AluImm { op: AluOp::Srl, rd, rs1, imm: shamt }
            } else if mode == 0b010000 {
                Instruction::AluImm { op: AluOp::Sra, rd, rs1, imm: shamt }
            } else {
                Instruction::Invalid
            }
        } else {
            Instruction::Invalid
        }
    } else if opcode == 0b0110011 {
        if funct7 == 0b0000000 && funct3 == 0b000 {
            Instruction::Alu { op: AluOp::Add, rd, rs1, rs2 }
        } else if funct7 == 0b0100000 && funct3 == 0b000 {
            Instruction::Alu { op: AluOp::Sub, rd, rs1, rs2 }
        } else if funct7 == 0b0000000 && funct3 == 0b001 {
            Instruction::Alu { op: AluOp::Sll, rd, rs1, rs2 }
        } else if funct7 == 0b0000000 && funct3 == 0b010 {
            Instruction::Alu { op: AluOp::Slt, rd, rs1, rs2 }
        } else if funct7 == 0b0000000 && funct3 == 0b011 {
            Instruction::Alu { op: AluOp::Sltu, rd, rs1, rs2 }
        } else if funct7 == 0b0000000 && funct3 == 0b100 {
            Instruction::Alu { op: AluOp::Xor, rd, rs1, rs2 }
        } else if funct7 == 0b0000000 && funct3 == 0b101 {
            Instruction::Alu { op: AluOp::Srl, rd, rs1, rs2 }
        } else if funct7 == 0b0100000 && funct3 == 0b101 {
            Instruction::Alu { op: AluOp::Sra, rd, rs1, rs2 }
        } else if funct7 == 0b0000000 && funct3 == 0b110 {
            Instruction::Alu { op: AluOp::Or, rd, rs1, rs2 }
        } else if funct7 == 0b0000000 && funct3 == 0b111 {
            Instruction::Alu { op: AluOp::And, rd, rs1, rs2 }
        } else {
            Instruction::Invalid
        }
    } else if opcode == 0b0111011 {
        if funct7 == 0b0000000 && funct3 == 0b000 {
            Instruction::AluW { op: AluWOp::AddW, rd, rs1, rs2 }
        } else if funct7 == 0b0100000 && funct3 == 0b000 {
            Instruction::AluW { op: AluWOp::SubW, rd, rs1, rs2 }
        } else if funct7 == 0b0000000 && funct3 == 0b001 {
            Instruction::AluW { op: AluWOp::SllW, rd, rs1, rs2 }
        } else if funct7 == 0b0000000 && funct3 == 0b101 {
            Instruction::AluW { op: AluWOp::SrlW, rd, rs1, rs2 }
        } else if funct7 == 0b0100000 && funct3 == 0b101 {
            Instruction::AluW { op: AluWOp::SraW, rd, rs1, rs2 }
        } else {
            Instruction::Invalid
        }
    } else if opcode == 0b0001111 {
        if funct3 == 0b000 {
            Instruction::Fence
        } else {
            Instruction::Invalid
        }
    } else if opcode == 0b1110011 {
        if inst == 0b00000000000000000000000001110011 {
            Instruction::Ecall
        } else if inst == 0b00000000000100000000000001110011 {
            Instruction::Ebreak
        } else {
            Instruction::Invalid
        }
    } else if opcode == 0b0011011 {
        let imm = Itype::spec_imm(inst);
        let shamt = ((inst >> 20) & 0b11111) as u64;
        let mode = (inst >> 25) & 0b1111111;
        if funct3 == 0b000 {
            Instruction::AluImmW { op: AluWOp::AddW, rd, rs1, imm }
        } else if funct3 == 0b001 {
            if mode == 0b0000000 {
                Instruction::AluImmW { op: AluWOp::SllW, rd, rs1, imm: shamt }
            } else {
                Instruction::Invalid
            }
        } else if funct3 == 0b101 {
            if mode == 0b0000000 {
                Instruction::AluImmW { op: AluWOp::SrlW, rd, rs1, imm: shamt }
            } else if mode == 0b0100000 {
                Instruction::AluImmW { op: AluWOp::SraW, rd, rs1, imm: shamt }
            } else {
                Instruction::Invalid
            }
        } else {
            Instruction::Invalid
        }
    } else {
        Instruction::Invalid
    }
}

/// Decode an instruction word.
pub fn decode(inst: u32) -> (r: Instruction)
    ensures
        r == spec_decode(inst),
{
    proof {
        lemma_field_bounds(inst >> 7);
        lemma_field_bounds(inst >> 15);
        lemma_field_bounds(inst >> 20);
    }
    let opcode = inst & 0b1111111;
    let funct3 = (inst >> 12) & 0b111;
    let funct7 = (inst >> 25) & 0b1111111;
    let rd = Register::from_u32((inst >> 7) & 0b11111);
    let rs1 = Register::from_u32((inst >> 15) & 0b11111);
    let rs2 = Register::from_u32((inst >> 20) & 0b11111);
    if opcode == 0b0110111 {
        Instruction::Lui { rd, imm: Utype::from_u32(inst).imm }
    } else if opcode == 0b0010111 {
        Instruction::Auipc { rd, imm: Utype::from_u32(inst).imm }
    } else if opcode == 0b1101111 {
        Instruction::Jal { rd, imm: Jtype::from_u32(inst).imm }
    } else if opcode == 0b1100111 {
        if funct3 == 0b000 {
            Instruction::Jalr { rd, rs1, imm: Itype::from_u32(inst).imm }
        } else {
            Instruction::Invalid
        }
    } else if opcode == 0b1100011 {
        let imm = Btype::from_u32(inst).imm;
        if funct3 == 0b000 {
            Instruction::Branch { op: BranchOp::Beq, rs1, rs2, imm }
        } else if funct3 == 0b001 {
            Instruction::Branch { op: BranchOp::Bne, rs1, rs2, imm }
        } else if funct3 == 0b100 {
            Instruction::Branch { op: BranchOp::Blt, rs1, rs2, imm }
        } else if funct3 == 0b101 {
            Instruction::Branch { op: BranchOp::Bge, rs1, rs2, imm }
        } else if funct3 == 0b110 {
            Instruction::Branch { op: BranchOp::Bltu, rs1, rs2, imm }
        } else if funct3 == 0b111 {
            Instruction::Branch { op: BranchOp::Bgeu, rs1, rs2, imm }
        } else {
            Instruction::Invalid
        }
    } else if opcode == 0b0000011 {
        let imm = Itype::from_u32(inst).imm;
        if funct3 == 0b000 {
            Instruction::Load { op: LoadOp::Lb, rd, rs1, imm }
        } else if funct3 == 0b001 {
            Instruction::Load { op: LoadOp::Lh, rd, rs1, imm }
        } else if funct3 == 0b010 {
            Instruction::Load { op: LoadOp::Lw, rd, rs1, imm }
        } else if funct3 == 0b011 {
            Instruction::Load { op: LoadOp::Ld, rd, rs1, imm }
        } else if funct3 == 0b100 {
            Instruction::Load { op: LoadOp::Lbu, rd, rs1, imm }
        } else if funct3 == 0b101 {
            Instruction::Load { op: LoadOp::Lhu, rd, rs1, imm }
        } else if funct3 == 0b110 {
            Instruction::Load { op: LoadOp::Lwu, rd, rs1, imm }
        } else {
            Instruction::Invalid
        }
    } else if opcode == 0b0100011 {
        let imm = Stype::from_u32(inst).imm;
        if funct3 == 0b000 {
            Instruction::Store { op: StoreOp::Sb, rs1, rs2, imm }
        } else if funct3 == 0b001 {
            Instruction::Store { op: StoreOp::Sh, rs1, rs2, imm }
        } else if funct3 == 0b010 {
            Instruction::Store { op: StoreOp::Sw, rs1, rs2, imm }
        } else if funct3 == 0b011 {
            Instruction::Store { op: StoreOp::Sd, rs1, rs2, imm }
        } else {
            Instruction::Invalid
        }
    } else if opcode == 0b0010011 {
        let imm = Itype::from_u32(inst).imm;
        let shamt = ((inst >> 20) & 0b111111) as u64;
        let mode = (inst >> 26) & 0b111111;
        if funct3 == 0b000 {
            Instruction::AluImm { op: AluOp::Add, rd, rs1, imm }
        } else if funct3 == 0b010 {
            Instruction::AluImm { op: AluOp::Slt, rd, rs1, imm }
        } else if funct3 == 0b011 {
            Instruction::AluImm { op: AluOp::Sltu, rd, rs1, imm }
        } else if funct3 == 0b100 {
            Instruction::AluImm { op: AluOp::Xor, rd, rs1, imm }
        } else if funct3 == 0b110 {
            Instruction::AluImm { op: AluOp::Or, rd, rs1, imm }
        } else if funct3 == 0b111 {
            Instruction::AluImm { op: AluOp::And, rd, rs1, imm }
        } else if funct3 == 0b001 {
            if mode == 0b000000 {
                Instruction::AluImm { op: AluOp::Sll, rd, rs1, imm: shamt }
            } else {
                Instruction::Invalid
            }
        } else if funct3 == 0b101 {
            if mode == 0b000000 {
                Instruction::AluImm { op: AluOp::Srl, rd, rs1, imm: shamt }
            } else if mode == 0b010000 {
                Instruction::AluImm { op: AluOp::Sra, rd, rs1, imm: shamt }
            } else {
                Instruction::Invalid
            }
        } else {
            Instruction::Invalid
        }
    } else if opcode == 0b0110011 {
        if funct7 == 0b0000000 && funct3 == 0b000 {
            Instruction::Alu { op: AluOp::Add, rd, rs1, rs2 }
        } else if funct7 == 0b0100000 && funct3 == 0b000 {
            Instruction::Alu { op: AluOp::Sub, rd, rs1, rs2 }
        } else if funct7 == 0b0000000 && funct3 == 0b001 {
            Instruction::Alu { op: AluOp::Sll, rd, rs1, rs2 }
        } else if funct7 == 0b0000000 && funct3 == 0b010 {
            Instruction::Alu { op: AluOp::Slt, rd, rs1, rs2 }
        } else if funct7 == 0b0000000 && funct3 == 0b011 {
            Instruction::Alu { op: AluOp::Sltu, rd, rs1, rs2 }
        } else if funct7 == 0b0000000 && funct3 == 0b100 {
            Instruction::Alu { op: AluOp::Xor, rd, rs1, rs2 }
        } else if funct7 == 0b0000000 && funct3 == 0b101 {
            Instruction::Alu { op: AluOp::Srl, rd, rs1, rs2 }
        } else if funct7 == 0b0100000 && funct3 == 0b101 {
            Instruction::Alu { op: AluOp::Sra, rd, rs1, rs2 }
        } else if funct7 == 0b0000000 && funct3 == 0b110 {
            Instruction::Alu { op: AluOp::Or, rd, rs1, rs2 }
        } else if funct7 == 0b0000000 && funct3 == 0b111 {
            Instruction::Alu { op: AluOp::And, rd, rs1, rs2 }
        } else {
            Instruction::Invalid
        }
    } else if opcode == 0b0111011 {
        if funct7 == 0b0000000 && funct3 == 0b000 {
            Instruction::AluW { op: AluWOp::AddW, rd, rs1, rs2 }
        } else if funct7 == 0b0100000 && funct3 == 0b000 {
            Instruction::AluW { op: AluWOp::SubW, rd, rs1, rs2 }
        } else if funct7 == 0b0000000 && funct3 == 0b001 {
            Instruction::AluW { op: AluWOp::SllW, rd, rs1, rs2 }
        } else if funct7 == 0b0000000 && funct3 == 0b101 {
            Instruction::AluW { op: AluWOp::SrlW, rd, rs1, rs2 }
        } else if funct7 == 0b0100000 && funct3 == 0b101 {
            Instruction::AluW { op: AluWOp::SraW, rd, rs1, rs2 }
        } else {
            Instruction::Invalid
        }
    } else if opcode == 0b0001111 {
        if funct3 == 0b000 {
            Instruction::Fence
        } else {
            Instruction::Invalid
        }
    } else if opcode == 0b1110011 {
        if inst == 0b00000000000000000000000001110011 {
            Instruction::Ecall
        } else if inst == 0b00000000000100000000000001110011 {
            Instruction::Ebreak
        } else {
            Instruction::Invalid
        }
    } else if opcode == 0b0011011 {
        let imm = Itype::from_u32(inst).imm;
        let shamt = ((inst >> 20) & 0b11111) as u64;
        let mode = (inst >> 25) & 0b1111111;
        if funct3 == 0b000 {
            Instruction::AluImmW { op: AluWOp::AddW, rd, rs1, imm }
        } else if funct3 == 0b001 {
            if mode == 0b0000000 {
                Instruction::AluImmW { op: AluWOp::SllW, rd, rs1, imm: shamt }
            } else {
                Instruction::Invalid
            }
        } else if funct3 == 0b101 {
            if mode == 0b0000000 {
                Instruction::AluImmW { op: AluWOp::SrlW, rd, rs1, imm: shamt }
            } else if mode == 0b0100000 {
                Instruction::AluImmW { op: AluWOp::SraW, rd, rs1, imm: shamt }
            } else {
                Instruction::Invalid
            }
        } else {
            Instruction::Invalid
        }
    } else {
        Instruction::Invalid
    }
}

/// The sign extension to 64 bits of a byte.
pub open spec fn sext8(b: u8) -> u64 {
    (((b as i8) as i64)) as u64
}

/// The sign extension to 64 bits of a halfword.
pub open spec fn sext16(h: u16) -> u64 {
    (((h as i16) as i64)) as u64
}

/// The sign extension to 64 bits of a word.
pub open spec fn sext32(w: u32) -> u64 {
    (((w as i32) as i64)) as u64
}

/// The reference meaning of a two-operand 64-bit integer operation: wrapped
/// addition and subtraction, shifts masked to six bits of shift amount with
/// an arithmetic signed right shift, signed and unsigned comparison, and
/// the bitwise operations.
pub open spec fn alu64(op: AluOp, a: u64, b: u64) -> u64 {
    match op {
        AluOp::Add => a.wrapping_add(b),
        AluOp::Sub => a.wrapping_sub(b),
        AluOp::Sll => a << (b & 0b111111),
        AluOp::Slt => if (a as i64) < (b as i64) {
            1
        } else {
            0
        },
        AluOp::Sltu => if a < b {
            1
        } else {
            0
        },
        AluOp::Xor => a ^ b,
        AluOp::Srl => a >> (b & 0b111111),
        AluOp::Sra => ((a as i64) >> (b & 0b111111)) as u64,
        AluOp::Or => a | b,
        AluOp::And => a & b,
    }
}

/// The reference meaning of a 32-bit word operation: computed on the low
/// words, shift amounts masked to five bits, the result sign extended.
pub open spec fn alu32(op: AluWOp, a: u32, b: u32) -> u64 {
    match op {
        AluWOp::AddW => sext32(a.wrapping_add(b)),
        AluWOp::SubW => sext32(a.wrapping_sub(b)),
        AluWOp::SllW => sext32(a << (b & 0b11111)),
        AluWOp::SrlW => sext32(a >> (b & 0b11111)),
        AluWOp::SraW => (((a as i32) >> (b & 0b11111)) as i64) as u64,
    }
}

/// The reference meaning of a conditional branch comparison.
pub open spec fn branch_taken(op: BranchOp, a: u64, b: u64) -> bool {
    match op {
        BranchOp::Beq => a == b,
        BranchOp::Bne => a != b,
        BranchOp::Blt => (a as i64) < (b as i64),
        BranchOp::Bge => (a as i64) >= (b as i64),
        BranchOp::Bltu => a < b,
        BranchOp::Bgeu => a >= b,
    }
}

/// How many bytes a load reads.
pub open spec fn load_size(op: LoadOp) -> usize {
    match op {
        LoadOp::Lb => 1,
        LoadOp::Lh => 2,
        LoadOp::Lw => 4,
        LoadOp::Ld => 8,
        LoadOp::Lbu => 1,
        LoadOp::Lhu => 2,
        LoadOp::Lwu => 4,
    }
}

/// The register value a load produces from the raw little-endian word it
/// read: sign extended for the signed forms, zero extended otherwise.
pub open spec fn load_extend(op: LoadOp, w: u64) -> u64 {
    match op {
        LoadOp::Lb => sext8(w as u8),
        LoadOp::Lh => sext16(w as u16),
        LoadOp::Lw => sext32(w as u32),
        LoadOp::Ld => w,
        LoadOp::Lbu => (w as u8) as u64,
        LoadOp::Lhu => (w as u16) as u64,
        LoadOp::Lwu => (w as u32) as u64,
    }
}

/// How many bytes a store writes.
pub open spec fn store_size(op: StoreOp) -> usize {
    match op {
        StoreOp::Sb => 1,
        StoreOp::Sh => 2,
        StoreOp::Sw => 4,
        StoreOp::Sd => 8,
    }
}

/// The word a store writes: the low bytes of the source register.
pub open spec fn store_value(op: StoreOp, v: u64) -> u64 {
    match op {
        StoreOp::Sb => (v as u8) as u64,
        StoreOp::Sh => (v as u16) as u64,
        StoreOp::Sw => (v as u32) as u64,
        StoreOp::Sd => v,
    }
}

/// Compute a two-operand 64-bit integer operation.
pub fn alu64_exec(op: AluOp, a: u64, b: u64) -> (r: u64)
    ensures
        r == alu64(op, a, b),
{
    proof {
        lemma_shamt_bounds(b);
    }
    match op {
        AluOp::Add => a.wrapping_add(b),
        AluOp::Sub => a.wrapping_sub(b),
        AluOp::Sll => a << (b & 0b111111),
        AluOp::Slt => if (a as i64) < (b as i64) {
            1
        } else {
            0
        },
        AluOp::Sltu => if a < b {
            1
        } else {
            0
        },
        AluOp::Xor => a ^ b,
        AluOp::Srl => a >> (b & 0b111111),
        AluOp::Sra => ((a as i64) >> (b & 0b111111)) as u64,
        AluOp::Or => a | b,
        AluOp::And => a & b,
    }
}

/// Compute a 32-bit word operation.
pub fn alu32_exec(op: AluWOp, a: u32, b: u32) -> (r: u64)
    ensures
        r == alu32(op, a, b),
{
    proof {
        lemma_shamt_bounds_32(b);
    }
    match op {
        AluWOp::AddW => ((a.wrapping_add(b) as i32) as i64) as u64,
        AluWOp::SubW => ((a.wrapping_sub(b) as i32) as i64) as u64,
        AluWOp::SllW => (((a << (b & 0b11111)) as i32) as i64) as u64,
        AluWOp::SrlW => (((a >> (b & 0b11111)) as i32) as i64) as u64,
        AluWOp::SraW => (((a as i32) >> (b & 0b11111)) as i64) as u64,
    }
}

/// Decide a conditional branch comparison.
pub fn branch_taken_exec(op: BranchOp, a: u64, b: u64) -> (r: bool)
    ensures
        r == branch_taken(op, a, b),
{
    match op {
        BranchOp::Beq => a == b,
        BranchOp::Bne => a != b,
        BranchOp::Blt => (a as i64) < (b as i64),
        BranchOp::Bge => (a as i64) >= (b as i64),
        BranchOp::Bltu => a < b,
        BranchOp::Bgeu => a >= b,
    }
}

/// A shift amount masked to six bits is a legal 64-bit shift.
proof fn lemma_shamt_bounds(b: u64)
    by (bit_vector)
    ensures
        b & 0b111111 < 64,
{
}

/// A shift amount masked to five bits is a legal 32-bit shift.
proof fn lemma_shamt_bounds_32(b: u32)
    by (bit_vector)
    ensures
        b & 0b11111 < 32,
{
}

} // verus!
