//! The instruction catalog: opcode constants for the supported MIPS subset,
//! the two decode masks, and the mnemonic lookup.
//!
//! R-type instructions all carry zero in the primary opcode field (bits
//! 31..26) and are distinguished by the function field (bits 5..0), so their
//! constants populate only the low 6 bits.  I- and J-type constants populate
//! only the high 6 bits.

use vstd::prelude::*;

verus! {

pub const OP_ADD: u32 = 0b00000000000000000000000000100000;

pub const OP_ADDI: u32 = 0b00100000000000000000000000000000;

pub const OP_ADDIU: u32 = 0b00100100000000000000000000000000;

pub const OP_ADDU: u32 = 0b00000000000000000000000000100001;

pub const OP_SUB: u32 = 0b00000000000000000000000000100010;

pub const OP_SUBU: u32 = 0b00000000000000000000000000100011;

pub const OP_AND: u32 = 0b00000000000000000000000000100100;

pub const OP_ANDI: u32 = 0b00110000000000000000000000000000;

pub const OP_OR: u32 = 0b00000000000000000000000000100101;

pub const OP_ORI: u32 = 0b00110100000000000000000000000000;

pub const OP_XOR: u32 = 0b00000000000000000000000000100110;

pub const OP_XORI: u32 = 0b00111000000000000000000000000000;

pub const OP_NOR: u32 = 0b00000000000000000000000000100111;

pub const OP_SLL: u32 = 0b00000000000000000000000000000000;

pub const OP_SRL: u32 = 0b00000000000000000000000000000010;

pub const OP_SRA: u32 = 0b00000000000000000000000000000011;

pub const OP_SLLV: u32 = 0b00000000000000000000000000000100;

pub const OP_SRLV: u32 = 0b00000000000000000000000000000110;

pub const OP_SRAV: u32 = 0b00000000000000000000000000000111;

pub const OP_SLT: u32 = 0b00000000000000000000000000101010;

pub const OP_SLTI: u32 = 0b00101000000000000000000000000000;

pub const OP_SLTU: u32 = 0b00000000000000000000000000101011;

pub const OP_SLTIU: u32 = 0b00101100000000000000000000000000;

pub const OP_MULT: u32 = 0b00000000000000000000000000011000;

pub const OP_MULTU: u32 = 0b00000000000000000000000000011001;

pub const OP_DIV: u32 = 0b00000000000000000000000000011010;

pub const OP_DIVU: u32 = 0b00000000000000000000000000011011;

pub const OP_MFHI: u32 = 0b00000000000000000000000000010000;

pub const OP_MTHI: u32 = 0b00000000000000000000000000010001;

pub const OP_MFLO: u32 = 0b00000000000000000000000000010010;

pub const OP_MTLO: u32 = 0b00000000000000000000000000010011;

pub const OP_LUI: u32 = 0b00111100000000000000000000000000;

pub const OP_LW: u32 = 0b10001100000000000000000000000000;

pub const OP_LH: u32 = 0b10000100000000000000000000000000;

pub const OP_LHU: u32 = 0b10010100000000000000000000000000;

pub const OP_LB: u32 = 0b10000000000000000000000000000000;

pub const OP_LBU: u32 = 0b10010000000000000000000000000000;

pub const OP_SW: u32 = 0b10111000000000000000000000000000;

pub const OP_SH: u32 = 0b10101000000000000000000000000000;

pub const OP_SB: u32 = 0b10100000000000000000000000000000;

pub const OP_BEQ: u32 = 0b00010000000000000000000000000000;

pub const OP_BNE: u32 = 0b00010100000000000000000000000000;

pub const OP_JR: u32 = 0b00000000000000000000000000001000;

pub const OP_J: u32 = 0b00001000000000000000000000000000;

pub const OP_JAL: u32 = 0b00001100000000000000000000000000;

pub const OP_SYSCALL: u32 = 0b00000000000000000000000000001100;

/// Mask of the primary opcode field, bits 31..26.
pub const OP_FIRST_CODE: u32 = 0b11111100000000000000000000000000;

/// Mask of the function field, bits 5..0.
pub const OP_SECOND_CODE: u32 = 0b00000000000000000000000000111111;

/// The catalog's mnemonics, as symbolic names.
#[allow(dead_code)]
#[derive(Copy, Clone, Debug, PartialEq, Eq, Structural)]
pub enum OPName {
    VOID,
    ADD,
    ADDU,
    ADDI,
    ADDIU,
    SUB,
    SUBU,
    AND,
    ANDI,
    OR,
    ORI,
    XOR,
    XORI,
    NOR,
    SLL,
    SRL,
    SRA,
    SLLV,
    SRLV,
    SRAV,
    SLT,
    SLTI,
    SLTU,
    SLTIU,
    MULT,
    MULTU,
    DIV,
    DIVU,
    MFHI,
    MTHI,
    MFLO,
    MTLO,
    LI,
    LUI,
    LW,
    LH,
    LHU,
    LB,
    LBU,
    SW,
    SH,
    SB,
    BEQ,
    BNE,
    JR,
    J,
    JAL,
    SYSCALL,
}

/// The opcode constant a mnemonic stands for, or 0 for an unrecognized
/// mnemonic.  `li` is a pseudo-instruction deliberately aliased onto the
/// or-immediate encoding.  Note that 0 doubles as the `sll` function code.
pub open spec fn mnemonic_opcode(s: Seq<char>) -> u32 {
    if s == "add"@ {
        OP_ADD
    } else if s == "addi"@ {
        OP_ADDI
    } else if s == "addiu"@ {
        OP_ADDIU
    } else if s == "addu"@ {
        OP_ADDU
    } else if s == "sub"@ {
        OP_SUB
    } else if s == "subu"@ {
        OP_SUBU
    } else if s == "and"@ {
        OP_AND
    } else if s == "andi"@ {
        OP_ANDI
    } else if s == "or"@ {
        OP_OR
    } else if s == "ori"@ {
        OP_ORI
    } else if s == "xor"@ {
        OP_XOR
    } else if s == "xori"@ {
        OP_XORI
    } else if s == "nor"@ {
        OP_NOR
    } else if s == "sll"@ {
        OP_SLL
    } else if s == "srl"@ {
        OP_SRL
    } else if s == "sra"@ {
        OP_SRA
    } else if s == "sllv"@ {
        OP_SLLV
    } else if s == "srlv"@ {
        OP_SRLV
    } else if s == "srav"@ {
        OP_SRAV
    } else if s == "slt"@ {
        OP_SLT
    } else if s == "slti"@ {
        OP_SLTI
    } else if s == "sltu"@ {
        OP_SLTU
    } else if s == "sltiu"@ {
        OP_SLTIU
    } else if s == "mult"@ {
        OP_MULT
    } else if s == "multu"@ {
        OP_MULTU
    } else if s == "div"@ {
        OP_DIV
    } else if s == "divu"@ {
        OP_DIVU
    } else if s == "mfhi"@ {
        OP_MFHI
    } else if s == "mthi"@ {
        OP_MTHI
    } else if s == "mflo"@ {
        OP_MFLO
    } else if s == "mtlo"@ {
        OP_MTLO
    } else if s == "li"@ {
        OP_ORI
    } else if s == "lui"@ {
        OP_LUI
    } else if s == "lw"@ {
        OP_LW
    } else if s == "lh"@ {
        OP_LH
    } else if s == "lhu"@ {
        OP_LHU
    } else if s == "lb"@ {
        OP_LB
    } else if s == "lbu"@ {
        OP_LBU
    } else if s == "sw"@ {
        OP_SW
    } else if s == "sh"@ {
        OP_SH
    } else if s == "sb"@ {
        OP_SB
    } else if s == "beq"@ {
        OP_BEQ
    } else if s == "bne"@ {
        OP_BNE
    } else if s == "jr"@ {
        OP_JR
    } else if s == "j"@ {
        OP_J
    } else if s == "jal"@ {
        OP_JAL
    } else if s == "syscall"@ {
        OP_SYSCALL
    } else {
        0
    }
}

impl OPName {
    /// Looks a mnemonic up in the catalog.  Unrecognized mnemonics map to the
    /// sentinel opcode 0 rather than failing; the caller decides whether that
    /// is fatal.
    pub fn from(name: &str) -> (r: u32)
        ensures
            r == mnemonic_opcode(name@),
    {
        if crate::text::str_eq(name, "add") {
            OP_ADD
        } else if crate::text::str_eq(name, "addi") {
            OP_ADDI
        } else if crate::text::str_eq(name, "addiu") {
            OP_ADDIU
        } else if crate::text::str_eq(name, "addu") {
            OP_ADDU
        } else if crate::text::str_eq(name, "sub") {
            OP_SUB
        } else if crate::text::str_eq(name, "subu") {
            OP_SUBU
        } else if crate::text::str_eq(name, "and") {
            OP_AND
        } else if crate::text::str_eq(name, "andi") {
            OP_ANDI
        } else if crate::text::str_eq(name, "or") {
            OP_OR
        } else if crate::text::str_eq(name, "ori") {
            OP_ORI
        } else if crate::text::str_eq(name, "xor") {
            OP_XOR
        } else if crate::text::str_eq(name, "xori") {
            OP_XORI
        } else if crate::text::str_eq(name, "nor") {
            OP_NOR
        } else if crate::text::str_eq(name, "sll") {
            OP_SLL
        } else if crate::text::str_eq(name, "srl") {
            OP_SRL
        } else if crate::text::str_eq(name, "sra") {
            OP_SRA
        } else if crate::text::str_eq(name, "sllv") {
            OP_SLLV
        } else if crate::text::str_eq(name, "srlv") {
            OP_SRLV
        } else if crate::text::str_eq(name, "srav") {
            OP_SRAV
        } else if crate::text::str_eq(name, "slt") {
            OP_SLT
        } else if crate::text::str_eq(name, "slti") {
            OP_SLTI
        } else if crate::text::str_eq(name, "sltu") {
            OP_SLTU
        } else if crate::text::str_eq(name, "sltiu") {
            OP_SLTIU
        } else if crate::text::str_eq(name, "mult") {
            OP_MULT
        } else if crate::text::str_eq(name, "multu") {
            OP_MULTU
        } else if crate::text::str_eq(name, "div") {
            OP_DIV
        } else if crate::text::str_eq(name, "divu") {
            OP_DIVU
        } else if crate::text::str_eq(name, "mfhi") {
            OP_MFHI
        } else if crate::text::str_eq(name, "mthi") {
            OP_MTHI
        } else if crate::text::str_eq(name, "mflo") {
            OP_MFLO
        } else if crate::text::str_eq(name, "mtlo") {
            OP_MTLO
        } else if crate::text::str_eq(name, "li") {
            OP_ORI
        } else if crate::text::str_eq(name, "lui") {
            OP_LUI
        } else if crate::text::str_eq(name, "lw") {
            OP_LW
        } else if crate::text::str_eq(name, "lh") {
            OP_LH
        } else if crate::text::str_eq(name, "lhu") {
            OP_LHU
        } else if crate::text::str_eq(name, "lb") {
            OP_LB
        } else if crate::text::str_eq(name, "lbu") {
            OP_LBU
        } else if crate::text::str_eq(name, "sw") {
            OP_SW
        } else if crate::text::str_eq(name, "sh") {
            OP_SH
        } else if crate::text::str_eq(name, "sb") {
            OP_SB
        } else if crate::text::str_eq(name, "beq") {
            OP_BEQ
        } else if crate::text::str_eq(name, "bne") {
            OP_BNE
        } else if crate::text::str_eq(name, "jr") {
            OP_JR
        } else if crate::text::str_eq(name, "j") {
            OP_J
        } else if crate::text::str_eq(name, "jal") {
            OP_JAL
        } else if crate::text::str_eq(name, "syscall") {
            OP_SYSCALL
        } else {
            0
        }
    }
}

} // verus!
