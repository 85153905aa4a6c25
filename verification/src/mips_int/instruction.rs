//! A structured view of instructions: a mnemonic tag resolved without regard
//! to ASCII case, and a record carrying decoded operand fields.

use vstd::prelude::*;

use crate::mips_int::register;
use crate::mips_int::register::RegNames;
use crate::text;

verus! {

/// The catalog's mnemonics as a tag, with `VOID` for anything unrecognized.
#[allow(dead_code)]
#[derive(Copy, Clone, Debug, PartialEq, Eq, Structural)]
pub enum OPName {
    VOID,
    ADD,
    ADDU,
    ADDI,
    ADDIU,
    SUB,
    SUBU,
    AND,
    ANDI,
    OR,
    ORI,
    XOR,
    XORI,
    NOR,
    SLL,
    SRL,
    SRA,
    SLLV,
    SRLV,
    SRAV,
    SLT,
    SLTI,
    SLTU,
    SLTIU,
    MULT,
    MULTU,
    DIV,
    DIVU,
    MFHI,
    MTHI,
    MFLO,
    MTLO,
    LI,
    LUI,
    LW,
    LH,
    LHU,
    LB,
    LBU,
    SW,
    SH,
    SB,
    BEQ,
    BNE,
    JR,
    J,
    JAL,
    SYSCALL,
}

/// The tag a mnemonic stands for, compared without regard to ASCII case.
pub open spec fn opname_of(s: Seq<char>) -> OPName {
    if text::eq_ci(s, "add"@) {
        OPName::ADD
    } else if text::eq_ci(s, "addu"@) {
        OPName::ADDU
    } else if text::eq_ci(s, "addi"@) {
        OPName::ADDI
    } else if text::eq_ci(s, "addiu"@) {
        OPName::ADDIU
    } else if text::eq_ci(s, "sub"@) {
        OPName::SUB
    } else if text::eq_ci(s, "subu"@) {
        OPName::SUBU
    } else if text::eq_ci(s, "and"@) {
        OPName::AND
    } else if text::eq_ci(s, "andi"@) {
        OPName::ANDI
    } else if text::eq_ci(s, "or"@) {
        OPName::OR
    } else if text::eq_ci(s, "ori"@) {
        OPName::ORI
    } else if text::eq_ci(s, "xor"@) {
        OPName::XOR
    } else if text::eq_ci(s, "xori"@) {
        OPName::XORI
    } else if text::eq_ci(s, "nor"@) {
        OPName::NOR
    } else if text::eq_ci(s, "sll"@) {
        OPName::SLL
    } else if text::eq_ci(s, "srl"@) {
        OPName::SRL
    } else if text::eq_ci(s, "sra"@) {
        OPName::SRA
    } else if text::eq_ci(s, "sllv"@) {
        OPName::SLLV
    } else if text::eq_ci(s, "srlv"@) {
        OPName::SRLV
    } else if text::eq_ci(s, "srav"@) {
        OPName::SRAV
    } else if text::eq_ci(s, "slt"@) {
        OPName::SLT
    } else if text::eq_ci(s, "slti"@) {
        OPName::SLTI
    } else if text::eq_ci(s, "sltu"@) {
        OPName::SLTU
    } else if text::eq_ci(s, "sltiu"@) {
        OPName::SLTIU
    } else if text::eq_ci(s, "mult"@) {
        OPName::MULT
    } else if text::eq_ci(s, "multu"@) {
        OPName::MULTU
    } else if text::eq_ci(s, "div"@) {
        OPName::DIV
    } else if text::eq_ci(s, "divu"@) {
        OPName::DIVU
    } else if text::eq_ci(s, "mfhi"@) {
        OPName::MFHI
    } else if text::eq_ci(s, "mthi"@) {
        OPName::MTHI
    } else if text::eq_ci(s, "mflo"@) {
        OPName::MFLO
    } else if text::eq_ci(s, "mtlo"@) {
        OPName::MTLO
    } else if text::eq_ci(s, "li"@) {
        OPName::LI
    } else if text::eq_ci(s, "lui"@) {
        OPName::LUI
    } else if text::eq_ci(s, "lw"@) {
        OPName::LW
    } else if text::eq_ci(s, "lh"@) {
        OPName::LH
    } else if text::eq_ci(s, "lhu"@) {
        OPName::LHU
    } else if text::eq_ci(s, "lb"@) {
        OPName::LB
    } else if text::eq_ci(s, "lbu"@) {
        OPName::LBU
    } else if text::eq_ci(s, "sw"@) {
        OPName::SW
    } else if text::eq_ci(s, "sh"@) {
        OPName::SH
    } else if text::eq_ci(s, "sb"@) {
        OPName::SB
    } else if text::eq_ci(s, "beq"@) {
        OPName::BEQ
    } else if text::eq_ci(s, "bne"@) {
        OPName::BNE
    } else if text::eq_ci(s, "jr"@) {
        OPName::JR
    } else if text::eq_ci(s, "j"@) {
        OPName::J
    } else if text::eq_ci(s, "jal"@) {
        OPName::JAL
    } else if text::eq_ci(s, "syscall"@) {
        OPName::SYSCALL
    } else {
        OPName::VOID
    }
}

impl OPName {
    /// Resolves a mnemonic to its tag, ignoring ASCII case; unrecognized
    /// mnemonics give `VOID`.
    pub fn from(s: &str) -> (r: OPName)
        ensures
            r == opname_of(s@),
    {
        if text::str_eq_ci(s, "add") {
            OPName::ADD
        } else if text::str_eq_ci(s, "addu") {
            OPName::ADDU
        } else if text::str_eq_ci(s, "addi") {
            OPName::ADDI
        } else if text::str_eq_ci(s, "addiu") {
            OPName::ADDIU
        } else if text::str_eq_ci(s, "sub") {
            OPName::SUB
        } else if text::str_eq_ci(s, "subu") {
            OPName::SUBU
        } else if text::str_eq_ci(s, "and") {
            OPName::AND
        } else if text::str_eq_ci(s, "andi") {
            OPName::ANDI
        } else if text::str_eq_ci(s, "or") {
            OPName::OR
        } else if text::str_eq_ci(s, "ori") {
            OPName::ORI
        } else if text::str_eq_ci(s, "xor") {
            OPName::XOR
        } else if text::str_eq_ci(s, "xori") {
            OPName::XORI
        } else if text::str_eq_ci(s, "nor") {
            OPName::NOR
        } else if text::str_eq_ci(s, "sll") {
            OPName::SLL
        } else if text::str_eq_ci(s, "srl") {
            OPName::SRL
        } else if text::str_eq_ci(s, "sra") {
            OPName::SRA
        } else if text::str_eq_ci(s, "sllv") {
            OPName::SLLV
        } else if text::str_eq_ci(s, "srlv") {
            OPName::SRLV
        } else if text::str_eq_ci(s, "srav") {
            OPName::SRAV
        } else if text::str_eq_ci(s, "slt") {
            OPName::SLT
        } else if text::str_eq_ci(s, "slti") {
            OPName::SLTI
        } else if text::str_eq_ci(s, "sltu") {
            OPName::SLTU
        } else if text::str_eq_ci(s, "sltiu") {
            OPName::SLTIU
        } else if text::str_eq_ci(s, "mult") {
            OPName::MULT
        } else if text::str_eq_ci(s, "multu") {
            OPName::MULTU
        } else if text::str_eq_ci(s, "div") {
            OPName::DIV
        } else if text::str_eq_ci(s, "divu") {
            OPName::DIVU
        } else if text::str_eq_ci(s, "mfhi") {
            OPName::MFHI
        } else if text::str_eq_ci(s, "mthi") {
            OPName::MTHI
        } else if text::str_eq_ci(s, "mflo") {
            OPName::MFLO
        } else if text::str_eq_ci(s, "mtlo") {
            OPName::MTLO
        } else if text::str_eq_ci(s, "li") {
            OPName::LI
        } else if text::str_eq_ci(s, "lui") {
            OPName::LUI
        } else if text::str_eq_ci(s, "lw") {
            OPName::LW
        } else if text::str_eq_ci(s, "lh") {
            OPName::LH
        } else if text::str_eq_ci(s, "lhu") {
            OPName::LHU
        } else if text::str_eq_ci(s, "lb") {
            OPName::LB
        } else if text::str_eq_ci(s, "lbu") {
            OPName::LBU
        } else if text::str_eq_ci(s, "sw") {
            OPName::SW
        } else if text::str_eq_ci(s, "sh") {
            OPName::SH
        } else if text::str_eq_ci(s, "sb") {
            OPName::SB
        } else if text::str_eq_ci(s, "beq") {
            OPName::BEQ
        } else if text::str_eq_ci(s, "bne") {
            OPName::BNE
        } else if text::str_eq_ci(s, "jr") {
            OPName::JR
        } else if text::str_eq_ci(s, "j") {
            OPName::J
        } else if text::str_eq_ci(s, "jal") {
            OPName::JAL
        } else if text::str_eq_ci(s, "syscall") {
            OPName::SYSCALL
        } else {
            OPName::VOID
        }
    }
}

/// A decoded instruction: the mnemonic tag, up to three register operands, a
/// 16-bit immediate, and an address/label target.
#[derive(Copy, Clone)]
pub struct Instruction {
    pub op: OPName,
    pub rs: register::RegNames,
    pub rt: register::RegNames,
    pub rd: register::RegNames,
    pub imm: i16,
    pub addr: usize,
}

impl Instruction {
    /// A blank instruction: the `VOID` tag, zero-register operands, and zero
    /// immediate and address fields.
    pub fn new() -> (r: Instruction)
        ensures
            r.op == OPName::VOID,
            r.rs == RegNames::ZERO,
            r.rt == RegNames::ZERO,
            r.rd == RegNames::ZERO,
            r.imm == 0,
            r.addr == 0,
    {
        Instruction {
            op: OPName::VOID,
            rs: RegNames::ZERO,
            rt: RegNames::ZERO,
            rd: RegNames::ZERO,
            imm: 0,
            addr: 0,
        }
    }
}

} // verus!
