//! The machine: assembler state, program memory, register file, and the
//! fetch-decode-execute step.

pub mod data;
pub mod instruction;
pub mod register;

use vstd::prelude::*;

use crate::instruction as opcodes;
use crate::mips_int::instruction::OPName;
use crate::mips_int::register::RegNames;
use crate::mips_int::register::Register;
use crate::text;

verus! {

/// Every failure the assembler or the executor can report.
#[derive(Debug)]
pub enum MipsError {
    /// Decode produced an opcode with no matching handler; the step makes no
    /// state change.  The payload is the fetched word, or 0 when the program
    /// counter was out of bounds and no word could be fetched.
    UnknownInstruction(u32),
    /// A source line could not be parsed; the payload is the 0-based index of
    /// the line among the non-blank, non-comment lines.
    SyntaxError(usize),
    /// Assembly completed without a `main` label; the program counter is left
    /// unset and execution must not be attempted.
    MissingMain,
    /// The `main` label was defined at a position that is not word-aligned.
    InvalidMain,
    /// A register name was not recognized by the alias table.
    UnknownRegister,
}

/// Which section of the source the loader is in; the phases only ever move
/// forward.
#[derive(Copy, Clone, PartialEq, Eq, Structural)]
pub enum LoadingState {
    /// Before `.data`: constant declarations.
    Header,
    /// Between `.data` and `.text`: layout directives.
    Data,
    /// After `.text`: instructions.
    Code,
}

/// The simulated machine: 32 general-purpose registers, the distinguished
/// PC/HI/LO registers, the encoded program, and the symbol table (assemble
/// time constants and resolved labels).
pub struct MipsInterpreter {
    registers: Vec<Register>,
    pc: Register,
    hi: Register,
    lo: Register,
    program: Vec<u32>,
    variables: Vec<(String, i32)>,
    labels: Vec<(String, u32)>,
}

// ---------------------------------------------------------------------------
// Decode
// ---------------------------------------------------------------------------

/// The opcode a word decodes to: the primary opcode field when it is nonzero,
/// the function field otherwise (R-type instructions share a zero primary
/// field and differ only in the function field).
pub open spec fn decode_of(w: u32) -> u32 {
    if w & opcodes::OP_FIRST_CODE != 0 {
        w & opcodes::OP_FIRST_CODE
    } else {
        w & opcodes::OP_SECOND_CODE
    }
}

/// Field `rs`, bits 25..21.
pub open spec fn rs_of(w: u32) -> u32 {
    (w >> 21) & 0x1f
}

/// Field `rt`, bits 20..16.
pub open spec fn rt_of(w: u32) -> u32 {
    (w >> 16) & 0x1f
}

/// Field `rd`, bits 15..11.
pub open spec fn rd_of(w: u32) -> u32 {
    (w >> 11) & 0x1f
}

/// The 26-bit jump target field.
pub open spec fn jump_target_of(w: u32) -> u32 {
    w & 0x03ff_ffff
}

/// 32-bit wraparound addition, no overflow trap.
pub open spec fn wrap_add(a: u32, b: u32) -> u32 {
    ((a + b) % 0x1_0000_0000) as u32
}

/// The R-type encoding: function code plus the three register fields.
pub open spec fn encode_r_of(funct: u32, rs: u32, rt: u32, rd: u32) -> u32 {
    funct | (rs << 21) | (rt << 16) | (rd << 11)
}

/// The J-type encoding: primary opcode plus the 26-bit target.
pub open spec fn encode_j_of(op: u32, target: u32) -> u32 {
    op | (target & 0x03ff_ffff)
}

/// A word whose primary opcode field is zero decodes through the function
/// field, never the primary field.
pub proof fn lemma_rtype_decode(w: u32)
    requires
        w & opcodes::OP_FIRST_CODE == 0,
    ensures
        decode_of(w) == w & opcodes::OP_SECOND_CODE,
{
}

/// Decoding an R-type encoding selects the function code via the
/// function-field fallback, for every function code, zero included.
pub proof fn lemma_rtype_encode_decode(funct: u32, rs: u32, rt: u32, rd: u32)
    requires
        funct < 64,
        rs < 32,
        rt < 32,
        rd < 32,
    ensures
        decode_of(encode_r_of(funct, rs, rt, rd)) == funct,
        rs_of(encode_r_of(funct, rs, rt, rd)) == rs,
        rt_of(encode_r_of(funct, rs, rt, rd)) == rt,
        rd_of(encode_r_of(funct, rs, rt, rd)) == rd,
{
    let w = encode_r_of(funct, rs, rt, rd);
    assert((funct | (rs << 21) | (rt << 16) | (rd << 11)) & 0b11111100000000000000000000000000u32
        == 0 && (funct | (rs << 21) | (rt << 16) | (rd << 11))
        & 0b00000000000000000000000000111111u32 == funct && ((funct | (rs << 21) | (rt << 16) | (
    rd << 11)) >> 21) & 0x1f == rs && ((funct | (rs << 21) | (rt << 16) | (rd << 11)) >> 16) & 0x1f
        == rt && ((funct | (rs << 21) | (rt << 16) | (rd << 11)) >> 11) & 0x1f == rd) by (bit_vector)
        requires
            funct < 64 && rs < 32 && rt < 32 && rd < 32,
    ;
}

/// Decoding a J-type encoding built from the jump opcode selects the primary
/// field and preserves the 26-bit target.
pub proof fn lemma_jtype_encode_decode(target: u32)
    ensures
        decode_of(encode_j_of(opcodes::OP_J, target)) == opcodes::OP_J,
        jump_target_of(encode_j_of(opcodes::OP_J, target)) == target & 0x03ff_ffff,
{
    assert((0b00001000000000000000000000000000u32 | (target & 0x03ff_ffff))
        & 0b11111100000000000000000000000000u32 == 0b00001000000000000000000000000000u32 && (
    0b00001000000000000000000000000000u32 | (target & 0x03ff_ffff)) & 0x03ff_ffff == target
        & 0x03ff_ffff) by (bit_vector);
}

/// The mnemonic tag an opcode constant dispatches to, with `VOID` for an
/// opcode outside the catalog.  The sentinel 0 is the `sll` function code.
pub open spec fn opcode_opname(code: u32) -> OPName {
    if code == opcodes::OP_ADD {
        OPName::ADD
    } else if code == opcodes::OP_ADDI {
        OPName::ADDI
    } else if code == opcodes::OP_ADDIU {
        OPName::ADDIU
    } else if code == opcodes::OP_ADDU {
        OPName::ADDU
    } else if code == opcodes::OP_SUB {
        OPName::SUB
    } else if code == opcodes::OP_SUBU {
        OPName::SUBU
    } else if code == opcodes::OP_AND {
        OPName::AND
    } else if code == opcodes::OP_ANDI {
        OPName::ANDI
    } else if code == opcodes::OP_OR {
        OPName::OR
    } else if code == opcodes::OP_ORI {
        OPName::ORI
    } else if code == opcodes::OP_XOR {
        OPName::XOR
    } else if code == opcodes::OP_XORI {
        OPName::XORI
    } else if code == opcodes::OP_NOR {
        OPName::NOR
    } else if code == opcodes::OP_SLL {
        OPName::SLL
    } else if code == opcodes::OP_SRL {
        OPName::SRL
    } else if code == opcodes::OP_SRA {
        OPName::SRA
    } else if code == opcodes::OP_SLLV {
        OPName::SLLV
    } else if code == opcodes::OP_SRLV {
        OPName::SRLV
    } else if code == opcodes::OP_SRAV {
        OPName::SRAV
    } else if code == opcodes::OP_SLT {
        OPName::SLT
    } else if code == opcodes::OP_SLTI {
        OPName::SLTI
    } else if code == opcodes::OP_SLTU {
        OPName::SLTU
    } else if code == opcodes::OP_SLTIU {
        OPName::SLTIU
    } else if code == opcodes::OP_MULT {
        OPName::MULT
    } else if code == opcodes::OP_MULTU {
        OPName::MULTU
    } else if code == opcodes::OP_DIV {
        OPName::DIV
    } else if code == opcodes::OP_DIVU {
        OPName::DIVU
    } else if code == opcodes::OP_MFHI {
        OPName::MFHI
    } else if code == opcodes::OP_MTHI {
        OPName::MTHI
    } else if code == opcodes::OP_MFLO {
        OPName::MFLO
    } else if code == opcodes::OP_MTLO {
        OPName::MTLO
    } else if code == opcodes::OP_LUI {
        OPName::LUI
    } else if code == opcodes::OP_LW {
        OPName::LW
    } else if code == opcodes::OP_LH {
        OPName::LH
    } else if code == opcodes::OP_LHU {
        OPName::LHU
    } else if code == opcodes::OP_LB {
        OPName::LB
    } else if code == opcodes::OP_LBU {
        OPName::LBU
    } else if code == opcodes::OP_SW {
        OPName::SW
    } else if code == opcodes::OP_SH {
        OPName::SH
    } else if code == opcodes::OP_SB {
        OPName::SB
    } else if code == opcodes::OP_BEQ {
        OPName::BEQ
    } else if code == opcodes::OP_BNE {
        OPName::BNE
    } else if code == opcodes::OP_JR {
        OPName::JR
    } else if code == opcodes::OP_J {
        OPName::J
    } else if code == opcodes::OP_JAL {
        OPName::JAL
    } else if code == opcodes::OP_SYSCALL {
        OPName::SYSCALL
    } else {
        OPName::VOID
    }
}

// ---------------------------------------------------------------------------
// Machine state
// ---------------------------------------------------------------------------

/// The word the program counter holds.
pub open spec fn pc_word(m: MipsInterpreter) -> u32 {
    register::u32_of_i32(m.pc_reg().value)
}

/// The unsigned values of the 32 general-purpose registers.
pub open spec fn regs_u32(m: MipsInterpreter) -> Seq<u32> {
    Seq::new(32, |i: int| register::u32_of_i32(m.reg_file()[i].value))
}

/// Looks a name up in an association sequence, the most recent entry winning.
pub open spec fn assoc_lookup<V>(entries: Seq<(Seq<char>, V)>, name: Seq<char>) -> Option<V>
    decreases entries.len(),
{
    if entries.len() == 0 {
        None
    } else if entries.last().0 == name {
        Some(entries.last().1)
    } else {
        assoc_lookup(entries.drop_last(), name)
    }
}

impl MipsInterpreter {
    /// The register file, slot by slot.
    pub closed spec fn reg_file(self) -> Seq<Register> {
        self.registers@
    }

    /// The program counter register.
    pub closed spec fn pc_reg(self) -> Register {
        self.pc
    }

    /// The HI register.
    pub closed spec fn hi_reg(self) -> Register {
        self.hi
    }

    /// The LO register.
    pub closed spec fn lo_reg(self) -> Register {
        self.lo
    }

    /// The encoded program, in address order.
    pub closed spec fn program_view(self) -> Seq<u32> {
        self.program@
    }

    /// The label table as (name, word address) pairs, later entries shadowing
    /// earlier ones.
    pub closed spec fn labels_view(self) -> Seq<(Seq<char>, u32)> {
        self.labels.deep_view()
    }

    /// The assemble-time constants as (name, value) pairs.
    pub closed spec fn vars_view(self) -> Seq<(Seq<char>, i32)> {
        self.variables.deep_view()
    }

    /// Well-formed machine state: the full register file with each slot
    /// carrying its own canonical name, and a program that fits the 32-bit
    /// address space.
    pub open spec fn wf(self) -> bool {
        &&& self.reg_file().len() == 32
        &&& (forall|i: int|
            0 <= i < 32 ==> (#[trigger] self.reg_file()[i]).name == register::canonical_of(i))
        &&& self.pc_reg().name == RegNames::PC
        &&& self.hi_reg().name == RegNames::HI
        &&& self.lo_reg().name == RegNames::LO
        &&& self.program_view().len() <= 0xffff_ffff
    }

    /// A fresh machine: all registers zeroed, empty program memory, empty
    /// label table.
    pub fn new() -> (r: MipsInterpreter)
        ensures
            r.wf(),
            regs_u32(r) =~= Seq::new(32, |i: int| 0u32),
            pc_word(r) == 0,
            r.hi_reg().value == 0,
            r.lo_reg().value == 0,
            r.program_view() =~= Seq::<u32>::empty(),
            r.vars_view() =~= Seq::<(Seq<char>, i32)>::empty(),
            r.labels_view() =~= Seq::<(Seq<char>, u32)>::empty(),
    {
        let mut registers: Vec<Register> = Vec::new();
        let mut i: u32 = 0;
        while i < 32
            invariant
                i <= 32,
                registers@.len() == i,
                forall|k: int|
                    0 <= k < i ==> (#[trigger] registers@[k]).name == register::canonical_of(k)
                        && registers@[k].value == 0,
            decreases 32 - i,
        {
            registers.push(Register::new(RegNames::canonical_from_index(i)));
            i += 1;
        }
        MipsInterpreter {
            registers,
            pc: Register::new(RegNames::PC),
            hi: Register::new(RegNames::HI),
            lo: Register::new(RegNames::LO),
            program: Vec::new(),
            variables: Vec::new(),
            labels: Vec::new(),
        }
    }

    /// Clears everything a new program replaces: registers, program counter,
    /// program memory, and the label table.
    fn reset(&mut self)
        requires
            old(self).wf(),
        ensures
            final(self).wf(),
            regs_u32(*final(self)) =~= Seq::new(32, |i: int| 0u32),
            pc_word(*final(self)) == 0,
            final(self).hi.value == 0,
            final(self).lo.value == 0,
            final(self).program_view() =~= Seq::<u32>::empty(),
            final(self).vars_view() =~= Seq::<(Seq<char>, i32)>::empty(),
            final(self).labels_view() =~= Seq::<(Seq<char>, u32)>::empty(),
    {
        let mut i: usize = 0;
        while i < 32
            invariant
                old(self).wf(),
                i <= 32,
                self.registers@.len() == 32,
                forall|k: int|
                    0 <= k < 32 ==> (#[trigger] self.registers@[k]).name == old(self).registers@[k].name,
                forall|k: int| 0 <= k < i ==> (#[trigger] self.registers@[k]).value == 0,
                self.pc == old(self).pc,
                self.hi == old(self).hi,
                self.lo == old(self).lo,
                self.program == old(self).program,
                self.variables == old(self).variables,
                self.labels == old(self).labels,
            decreases 32 - i,
        {
            let name = self.registers[i].name;
            self.registers[i] = Register { value: 0, name };
            i += 1;
        }
        self.pc.set_u32(0);
        self.hi.set_u32(0);
        self.lo.set_u32(0);
        self.program = Vec::new();
        self.variables = Vec::new();
        self.labels = Vec::new();
    }

    /// Extracts the opcode of an encoded word: the primary field if nonzero,
    /// else the function field.
    pub fn get_opcode_from_instruction(code: u32) -> (r: u32)
        ensures
            r == decode_of(code),
    {
        let first = code & opcodes::OP_FIRST_CODE;
        if first != 0 {
            first
        } else {
            code & opcodes::OP_SECOND_CODE
        }
    }

    /// The tag an opcode dispatches to.
    fn opname_from_opcode(code: u32) -> (r: OPName)
        ensures
            r == opcode_opname(code),
    {
        if code == opcodes::OP_ADD {
            OPName::ADD
        } else if code == opcodes::OP_ADDI {
            OPName::ADDI
        } else if code == opcodes::OP_ADDIU {
            OPName::ADDIU
        } else if code == opcodes::OP_ADDU {
            OPName::ADDU
        } else if code == opcodes::OP_SUB {
            OPName::SUB
        } else if code == opcodes::OP_SUBU {
            OPName::SUBU
        } else if code == opcodes::OP_AND {
            OPName::AND
        } else if code == opcodes::OP_ANDI {
            OPName::ANDI
        } else if code == opcodes::OP_OR {
            OPName::OR
        } else if code == opcodes::OP_ORI {
            OPName::ORI
        } else if code == opcodes::OP_XOR {
            OPName::XOR
        } else if code == opcodes::OP_XORI {
            OPName::XORI
        } else if code == opcodes::OP_NOR {
            OPName::NOR
        } else if code == opcodes::OP_SLL {
            OPName::SLL
        } else if code == opcodes::OP_SRL {
            OPName::SRL
        } else if code == opcodes::OP_SRA {
            OPName::SRA
        } else if code == opcodes::OP_SLLV {
            OPName::SLLV
        } else if code == opcodes::OP_SRLV {
            OPName::SRLV
        } else if code == opcodes::OP_SRAV {
            OPName::SRAV
        } else if code == opcodes::OP_SLT {
            OPName::SLT
        } else if code == opcodes::OP_SLTI {
            OPName::SLTI
        } else if code == opcodes::OP_SLTU {
            OPName::SLTU
        } else if code == opcodes::OP_SLTIU {
            OPName::SLTIU
        } else if code == opcodes::OP_MULT {
            OPName::MULT
        } else if code == opcodes::OP_MULTU {
            OPName::MULTU
        } else if code == opcodes::OP_DIV {
            OPName::DIV
        } else if code == opcodes::OP_DIVU {
            OPName::DIVU
        } else if code == opcodes::OP_MFHI {
            OPName::MFHI
        } else if code == opcodes::OP_MTHI {
            OPName::MTHI
        } else if code == opcodes::OP_MFLO {
            OPName::MFLO
        } else if code == opcodes::OP_MTLO {
            OPName::MTLO
        } else if code == opcodes::OP_LUI {
            OPName::LUI
        } else if code == opcodes::OP_LW {
            OPName::LW
        } else if code == opcodes::OP_LH {
            OPName::LH
        } else if code == opcodes::OP_LHU {
            OPName::LHU
        } else if code == opcodes::OP_LB {
            OPName::LB
        } else if code == opcodes::OP_LBU {
            OPName::LBU
        } else if code == opcodes::OP_SW {
            OPName::SW
        } else if code == opcodes::OP_SH {
            OPName::SH
        } else if code == opcodes::OP_SB {
            OPName::SB
        } else if code == opcodes::OP_BEQ {
            OPName::BEQ
        } else if code == opcodes::OP_BNE {
            OPName::BNE
        } else if code == opcodes::OP_JR {
            OPName::JR
        } else if code == opcodes::OP_J {
            OPName::J
        } else if code == opcodes::OP_JAL {
            OPName::JAL
        } else if code == opcodes::OP_SYSCALL {
            OPName::SYSCALL
        } else {
            OPName::VOID
        }
    }

    /// `add rd, rs, rt`: `rd := rs + rt` with 32-bit wraparound.  Writes to
    /// slot 0 are not special-cased: the zero-register convention is left to
    /// the software, matching the assembler's view of it.
    fn inst_add(&mut self, inst: u32)
        requires
            old(self).wf(),
        ensures
            final(self).wf(),
            regs_u32(*final(self)) =~= regs_u32(*old(self)).update(
                rd_of(inst) as int,
                wrap_add(
                    regs_u32(*old(self))[rs_of(inst) as int],
                    regs_u32(*old(self))[rt_of(inst) as int],
                ),
            ),
            final(self).pc == old(self).pc,
            final(self).hi == old(self).hi,
            final(self).lo == old(self).lo,
            final(self).program == old(self).program,
            final(self).variables == old(self).variables,
            final(self).labels == old(self).labels,
    {
        proof {
            assert((inst >> 21) & 0x1f < 32 && (inst >> 16) & 0x1f < 32 && (inst >> 11) & 0x1f
                < 32) by (bit_vector);
        }
        let rs = ((inst >> 21) & 0x1f) as usize;
        let rt = ((inst >> 16) & 0x1f) as usize;
        let rd = ((inst >> 11) & 0x1f) as usize;
        let rs_val = self.registers[rs].get_u32();
        let rt_val = self.registers[rt].get_u32();
        let sum_wide = rs_val as u64 + rt_val as u64;
        let sum = (sum_wide & 0xffff_ffff) as u32;
        proof {
            let w = sum_wide;
            assert(w < 0x2_0000_0000 ==> (w & 0xffff_ffff) == w % 0x1_0000_0000) by (bit_vector);
        }
        let name = self.registers[rd].name;
        let mut cell = Register { value: 0, name };
        cell.set_u32(sum);
        self.registers[rd] = cell;
        proof {
            register::lemma_u32_i32_round_trip(sum, 0);
        }
    }

    /// `j target`: sets the program counter to the 26-bit word address; no
    /// other register is touched.
    fn inst_jump(&mut self, inst: u32)
        requires
            old(self).wf(),
        ensures
            final(self).wf(),
            final(self).registers == old(self).registers,
            pc_word(*final(self)) == jump_target_of(inst),
            final(self).pc.name == old(self).pc.name,
            final(self).hi == old(self).hi,
            final(self).lo == old(self).lo,
            final(self).program == old(self).program,
            final(self).variables == old(self).variables,
            final(self).labels == old(self).labels,
    {
        let target = inst & 0x03ff_ffff;
        self.pc.set_u32(target);
        proof {
            register::lemma_u32_i32_round_trip(target, 0);
        }
    }

    /// Fetches the word at the program counter, decodes it, dispatches it,
    /// and advances the program counter by one word unless the instruction
    /// set it itself.  An out-of-bounds fetch or an opcode without a handler
    /// reports `UnknownInstruction` and changes nothing.  Every other catalog
    /// entry is dispatchable and reports `UnknownInstruction` as its explicit
    /// not-yet-implemented result; `syscall` is a defined hook point with no
    /// behavioral promise here.
    pub fn process_line(&mut self) -> (r: Result<(), MipsError>)
        requires
            old(self).wf(),
        ensures
            final(self).wf(),
            final(self).program_view() == old(self).program_view(),
            final(self).vars_view() == old(self).vars_view(),
            final(self).labels_view() == old(self).labels_view(),
            final(self).hi_reg() == old(self).hi_reg(),
            final(self).lo_reg() == old(self).lo_reg(),
            ({
                let m = *old(self);
                let pcv = pc_word(m) as int;
                if pcv >= m.program_view().len() {
                    &&& r == Err::<(), MipsError>(MipsError::UnknownInstruction(0))
                    &&& *final(self) == m
                } else {
                    let inst = m.program_view()[pcv];
                    let op = decode_of(inst);
                    if op == opcodes::OP_ADD {
                        &&& r == Ok::<(), MipsError>(())
                        &&& regs_u32(*final(self)) =~= regs_u32(m).update(
                            rd_of(inst) as int,
                            wrap_add(
                                regs_u32(m)[rs_of(inst) as int],
                                regs_u32(m)[rt_of(inst) as int],
                            ),
                        )
                        &&& pc_word(*final(self)) == pc_word(m) + 1
                    } else if op == opcodes::OP_J {
                        &&& r == Ok::<(), MipsError>(())
                        &&& final(self).reg_file() == m.reg_file()
                        &&& pc_word(*final(self)) == jump_target_of(inst)
                    } else {
                        &&& r == Err::<(), MipsError>(MipsError::UnknownInstruction(inst))
                        &&& *final(self) == m
                    }
                }
            }),
    {
        let pcv = self.pc.get_u32();
        if pcv as usize >= self.program.len() {
            return Err(MipsError::UnknownInstruction(0));
        }
        let inst = self.program[pcv as usize];
        let opcode = Self::get_opcode_from_instruction(inst);
        match Self::opname_from_opcode(opcode) {
            OPName::ADD => {
                self.inst_add(inst);
                let next = pcv + 1;
                self.pc.set_u32(next);
                proof {
                    register::lemma_u32_i32_round_trip(next, 0);
                }
                Ok(())
            },
            OPName::J => {
                self.inst_jump(inst);
                Ok(())
            },
            _ => Err(MipsError::UnknownInstruction(inst)),
        }
    }

    /// The value a register holds, by any of its names.
    pub fn get_register(&self, reg: &RegNames) -> (r: i32)
        requires
            self.wf(),
        ensures
            r == match *reg {
                RegNames::PC => self.pc_reg().value,
                RegNames::HI => self.hi_reg().value,
                RegNames::LO => self.lo_reg().value,
                _ => self.reg_file()[register::index_of(register::align_of(*reg))].value,
            },
    {
        match reg {
            RegNames::PC => self.pc.value,
            RegNames::HI => self.hi.value,
            RegNames::LO => self.lo.value,
            _ => {
                let idx = RegNames::idx_from_enum(&RegNames::register_align(reg));
                self.registers[idx].value
            },
        }
    }

    /// Stores a value into a register, by any of its names.
    pub fn set_register(&mut self, reg: &RegNames, value: i32)
        requires
            old(self).wf(),
        ensures
            final(self).wf(),
            final(self).program_view() == old(self).program_view(),
            final(self).vars_view() == old(self).vars_view(),
            final(self).labels_view() == old(self).labels_view(),
            *reg == RegNames::PC ==> final(self).pc_reg().value == value && final(self).reg_file()
                == old(self).reg_file() && final(self).hi_reg() == old(self).hi_reg() && final(self).lo_reg() == old(self).lo_reg(),
            *reg == RegNames::HI ==> final(self).hi_reg().value == value && final(self).reg_file()
                == old(self).reg_file() && final(self).pc_reg() == old(self).pc_reg() && final(self).lo_reg() == old(self).lo_reg(),
            *reg == RegNames::LO ==> final(self).lo_reg().value == value && final(self).reg_file()
                == old(self).reg_file() && final(self).pc_reg() == old(self).pc_reg() && final(self).hi_reg() == old(self).hi_reg(),
            !(*reg == RegNames::PC || *reg == RegNames::HI || *reg == RegNames::LO) ==> final(self).reg_file() =~= old(self).reg_file().update(
                register::index_of(register::align_of(*reg)),
                (Register {
                    value,
                    name: register::canonical_of(register::index_of(register::align_of(*reg))),
                }),
            ) && final(self).pc_reg() == old(self).pc_reg() && final(self).hi_reg() == old(self).hi_reg() && final(self).lo_reg() == old(self).lo_reg(),
    {
        match reg {
            RegNames::PC => {
                self.pc = Register { value, name: RegNames::PC };
            },
            RegNames::HI => {
                self.hi = Register { value, name: RegNames::HI };
            },
            RegNames::LO => {
                self.lo = Register { value, name: RegNames::LO };
            },
            _ => {
                let idx = RegNames::idx_from_enum(&RegNames::register_align(reg));
                let name = self.registers[idx].name;
                self.registers[idx] = Register { value, name };
            },
        }
    }

    /// Renders one register for display, PC/HI/LO included; aliases are
    /// canonicalized first so every name has a description.
    pub fn display_register(&self, reg: &RegNames) -> (r: String)
        requires
            self.wf(),
        ensures
            r@ == match *reg {
                RegNames::PC => register::display_of(self.pc_reg()),
                RegNames::HI => register::display_of(self.hi_reg()),
                RegNames::LO => register::display_of(self.lo_reg()),
                _ => register::display_of(
                    self.reg_file()[register::index_of(register::align_of(*reg))],
                ),
            },
    {
        match reg {
            RegNames::PC => self.pc.display_string(),
            RegNames::HI => self.hi.display_string(),
            RegNames::LO => self.lo.display_string(),
            _ => {
                let idx = RegNames::idx_from_enum(&RegNames::register_align(reg));
                self.registers[idx].display_string()
            },
        }
    }
}

// ---------------------------------------------------------------------------
// Source-text helpers for the assembler
// ---------------------------------------------------------------------------

/// `s` without a leading `$` and without a trailing comma.
pub open spec fn remove_symbols_of(s: Seq<char>) -> Seq<char> {
    let t = if s.len() > 0 && s.first() == '$' {
        s.drop_first()
    } else {
        s
    };
    if t.len() > 0 && t.last() == ',' {
        t.drop_last()
    } else {
        t
    }
}

/// Removes a leading `$` if it exists, and a trailing comma `,` if that also
/// exists.
pub fn remove_symbols(inp: &str) -> (r: String)
    ensures
        r@ == remove_symbols_of(inp@),
{
    let n = inp.unicode_len();
    let start: usize = if n > 0 && inp.get_char(0) == '$' {
        1
    } else {
        0
    };
    let end: usize = if n > start && inp.get_char(n - 1) == ',' {
        n - 1
    } else {
        n
    };
    let r = inp.substring_char(start, end).to_owned();
    proof {
        assert(r@ =~= remove_symbols_of(inp@));
    }
    r
}

pub open spec fn is_alpha(c: char) -> bool {
    (65 <= c as int <= 90) || (97 <= c as int <= 122)
}

/// A label line: one or more letters followed by a colon, as the whole line.
pub open spec fn is_label_line(s: Seq<char>) -> bool {
    &&& s.len() >= 2
    &&& s.last() == ':'
    &&& (forall|i: int| 0 <= i < s.len() - 1 ==> is_alpha(#[trigger] s[i]))
}

/// Recognizes a label line and hands its name (the line without the colon)
/// back.
fn label_line_name(s: &str) -> (r: Option<String>)
    ensures
        r is Some <==> is_label_line(s@),
        r is Some ==> r->0@ == s@.drop_last(),
{
    let n = s.unicode_len();
    if n < 2 {
        return None;
    }
    if s.get_char(n - 1) != ':' {
        return None;
    }
    let mut i: usize = 0;
    while i < n - 1
        invariant
            n == s@.len(),
            2 <= n,
            i <= n - 1,
            forall|m: int| 0 <= m < i ==> is_alpha(#[trigger] s@[m]),
        decreases n - 1 - i,
    {
        let u = s.get_char(i) as u32;
        if !((65 <= u && u <= 90) || (97 <= u && u <= 122)) {
            proof {
                assert(!is_alpha(s@[i as int]));
            }
            return None;
        }
        i += 1;
    }
    let name = s.substring_char(0, n - 1).to_owned();
    proof {
        assert(name@ =~= s@.drop_last());
    }
    Some(name)
}

/// The line `main:` is a label line, and it is the only label line whose name
/// is `main`.
proof fn lemma_main_line(line: Seq<char>)
    requires
        line.len() >= 2,
        line.last() == ':',
    ensures
        is_label_line("main:"@),
        (line.drop_last() == "main"@) <==> (line == "main:"@),
{
    reveal_strlit("main");
    reveal_strlit("main:");
    assert forall|i: int| 0 <= i < "main:"@.len() - 1 implies is_alpha(#[trigger] "main:"@[i]) by {
        assert("main:"@[0] == 'm' && "main:"@[1] == 'a' && "main:"@[2] == 'i' && "main:"@[3]
            == 'n');
    }
    if line.drop_last() == "main"@ {
        assert("main"@.len() == 4);
        assert(line.drop_last().len() == 4);
        assert(line.len() == 5);
        assert(line[0] == line.drop_last()[0] && line[1] == line.drop_last()[1] && line[2]
            == line.drop_last()[2] && line[3] == line.drop_last()[3]);
        assert(line =~= "main:"@);
    }
    if line == "main:"@ {
        assert(line.drop_last() =~= "main"@);
    }
}

/// Some line is exactly `main:`.
pub open spec fn contains_main_line(ls: Seq<Seq<char>>) -> bool {
    exists|i: int| 0 <= i < ls.len() && ls[i] == "main:"@
}

/// Looks a name up in a variable table.
fn lookup_var(vars: &Vec<(String, i32)>, name: &str) -> (r: Option<i32>)
    ensures
        r == assoc_lookup(vars.deep_view(), name@),
{
    let mut i = vars.len();
    proof {
        assert(vars.deep_view().take(i as int) =~= vars.deep_view());
    }
    while i > 0
        invariant
            i <= vars.len(),
            assoc_lookup(vars.deep_view(), name@) == assoc_lookup(
                vars.deep_view().take(i as int),
                name@,
            ),
        decreases i,
    {
        i -= 1;
        if text::str_eq(vars[i].0.as_str(), name) {
            proof {
                assert(vars.deep_view().take(i + 1).last() == vars.deep_view()[i as int]);
            }
            return Some(vars[i].1);
        }
        proof {
            assert(vars.deep_view().take(i + 1).last() == vars.deep_view()[i as int]);
            assert(vars.deep_view().take(i + 1).drop_last() =~= vars.deep_view().take(i as int));
        }
    }
    None
}

/// Looks a name up in a label table.
fn lookup_label(labels: &Vec<(String, u32)>, name: &str) -> (r: Option<u32>)
    ensures
        r == assoc_lookup(labels.deep_view(), name@),
{
    let mut i = labels.len();
    proof {
        assert(labels.deep_view().take(i as int) =~= labels.deep_view());
    }
    while i > 0
        invariant
            i <= labels.len(),
            assoc_lookup(labels.deep_view(), name@) == assoc_lookup(
                labels.deep_view().take(i as int),
                name@,
            ),
        decreases i,
    {
        i -= 1;
        if text::str_eq(labels[i].0.as_str(), name) {
            proof {
                assert(labels.deep_view().take(i + 1).last() == labels.deep_view()[i as int]);
            }
            return Some(labels[i].1);
        }
        proof {
            assert(labels.deep_view().take(i + 1).last() == labels.deep_view()[i as int]);
            assert(labels.deep_view().take(i + 1).drop_last() =~= labels.deep_view().take(
                i as int,
            ));
        }
    }
    None
}

/// What an operand that is not a register resolves to: a declared variable
/// first, then a label (its word address), then a signed literal; in exactly
/// that order of precedence.
pub open spec fn resolve_of(
    vars: Seq<(Seq<char>, i32)>,
    labels: Seq<(Seq<char>, u32)>,
    t: Seq<char>,
) -> Option<i32> {
    if assoc_lookup(vars, t) is Some {
        assoc_lookup(vars, t)
    } else if assoc_lookup(labels, t) is Some {
        Some(register::i32_of_u32(assoc_lookup(labels, t)->0))
    } else if text::is_i32_lit(t) {
        Some(text::i32_lit_val(t) as i32)
    } else {
        None
    }
}

/// The resolution order is a designed precedence, not an accident: a name
/// matching both a declared variable and a label resolves to the variable.
pub proof fn lemma_variable_shadows_label(
    vars: Seq<(Seq<char>, i32)>,
    labels: Seq<(Seq<char>, u32)>,
    t: Seq<char>,
)
    requires
        assoc_lookup(vars, t) is Some,
    ensures
        resolve_of(vars, labels, t) == assoc_lookup(vars, t),
{
}

/// The first position of `c` in `s` at or after `from`, or the length of `s`.
pub open spec fn first_at(s: Seq<char>, from: int, c: char) -> int
    decreases s.len() - from,
{
    if from < 0 || from >= s.len() {
        s.len() as int
    } else if s[from] == c {
        from
    } else {
        first_at(s, from + 1, c)
    }
}

proof fn lemma_first_at(s: Seq<char>, from: int, c: char)
    requires
        0 <= from <= s.len(),
    ensures
        from <= first_at(s, from, c) <= s.len(),
        first_at(s, from, c) < s.len() ==> s[first_at(s, from, c)] == c,
        forall|m: int| from <= m < first_at(s, from, c) ==> s[m] != c,
    decreases s.len() - from,
{
    if from < s.len() && s[from] != c {
        lemma_first_at(s, from + 1, c);
    }
}

/// The contents of the first double-quoted stretch of the line, if the line
/// has an opening and a closing quote.
pub open spec fn quoted_of(s: Seq<char>) -> Option<Seq<char>> {
    let q1 = first_at(s, 0, '"');
    if q1 == s.len() {
        None
    } else {
        let q2 = first_at(s, q1 + 1, '"');
        if q2 == s.len() {
            None
        } else {
            Some(s.subrange(q1 + 1, q2))
        }
    }
}

/// Finds the first `"` at or after `from`.
fn find_quote(s: &str, from: usize) -> (r: usize)
    requires
        from <= s@.len(),
    ensures
        r == first_at(s@, from as int, '"'),
        r <= s@.len(),
    decreases s@.len() - from,
{
    proof {
        lemma_first_at(s@, from as int, '"');
    }
    let n = s.unicode_len();
    let mut i = from;
    while i < n
        invariant
            n == s@.len(),
            from <= i <= n,
            first_at(s@, from as int, '"') == first_at(s@, i as int, '"'),
        decreases n - i,
    {
        if s.get_char(i) == '"' {
            return i;
        }
        i += 1;
    }
    n
}

/// Extracts the quoted contents of a `.ascii`/`.asciiz` line.
fn quoted_content(s: &str) -> (r: Option<String>)
    ensures
        r is Some <==> quoted_of(s@) is Some,
        r is Some ==> r->0@ == quoted_of(s@)->0,
{
    let n = s.unicode_len();
    let q1 = find_quote(s, 0);
    if q1 == n {
        return None;
    }
    let q2 = find_quote(s, q1 + 1);
    if q2 == n {
        proof {
            lemma_first_at(s@, 0, '"');
        }
        return None;
    }
    proof {
        lemma_first_at(s@, 0, '"');
        lemma_first_at(s@, q1 + 1, '"');
    }
    Some(s.substring_char(q1 + 1, q2).to_owned())
}

/// The low byte of a character's scalar value.
pub open spec fn char_byte(c: char) -> u8 {
    ((c as int) % 256) as u8
}

/// What a character after a backslash stands for: `\n` is a newline, any
/// other escaped character stands for itself.
pub open spec fn escape_byte(c: char) -> u8 {
    if c == 'n' {
        10
    } else {
        char_byte(c)
    }
}

/// The bytes a quoted string lays out, one per character, with backslash
/// escapes collapsed; a trailing lone backslash lays out nothing.
pub open spec fn ascii_bytes_of(s: Seq<char>) -> Seq<u8>
    decreases s.len(),
{
    if s.len() == 0 {
        Seq::empty()
    } else if s.first() == '\\' {
        if s.len() == 1 {
            Seq::empty()
        } else {
            seq![escape_byte(s[1])] + ascii_bytes_of(s.skip(2))
        }
    } else {
        seq![char_byte(s.first())] + ascii_bytes_of(s.skip(1))
    }
}

/// Lays a quoted string out as bytes, collapsing backslash escapes.
#[verifier::loop_isolation(false)]
fn ascii_bytes_exec(s: &str) -> (r: Vec<u8>)
    ensures
        r@ == ascii_bytes_of(s@),
{
    let n = s.unicode_len();
    let mut r: Vec<u8> = Vec::new();
    let mut i: usize = 0;
    proof {
        assert(s@.skip(0) =~= s@);
    }
    while i < n
        invariant
            i <= n,
            ascii_bytes_of(s@) == r@ + ascii_bytes_of(s@.skip(i as int)),
        decreases n - i,
    {
        let c = s.get_char(i);
        if c == '\\' {
            if i + 1 < n {
                let e = s.get_char(i + 1);
                let b: u8 = if e == 'n' {
                    10
                } else {
                    ((e as u32) % 256) as u8
                };
                r.push(b);
                proof {
                    assert(s@.skip(i as int).skip(2) =~= s@.skip(i + 2));
                    assert(s@.skip(i as int)[1] == s@[i + 1]);
                }
                i += 2;
            } else {
                proof {
                    assert(ascii_bytes_of(s@.skip(i as int)) =~= Seq::<u8>::empty());
                    assert(s@.skip(n as int) =~= Seq::<char>::empty());
                }
                i = n;
            }
        } else {
            let b: u8 = ((c as u32) % 256) as u8;
            r.push(b);
            proof {
                assert(s@.skip(i as int).skip(1) =~= s@.skip(i + 1));
            }
            i += 1;
        }
    }
    proof {
        assert(s@.skip(n as int) =~= Seq::<char>::empty());
        assert(r@ =~= r@ + ascii_bytes_of(s@.skip(n as int)));
    }
    r
}

/// The general-purpose slot an instruction operand names, after symbol
/// stripping and alias canonicalization; PC/HI/LO are not operand slots.
pub open spec fn reg_slot_of(t: Seq<char>) -> Option<u32> {
    match register::reg_name_parse(remove_symbols_of(t)) {
        Some(n) => {
            let c = register::align_of(n);
            if c == RegNames::PC || c == RegNames::HI || c == RegNames::LO {
                None
            } else {
                Some(register::index_of(c) as u32)
            }
        },
        None => None,
    }
}

/// Resolves an instruction operand to its register slot.
fn reg_slot(t: &str) -> (r: Option<u32>)
    ensures
        r == reg_slot_of(t@),
        r is Some ==> r->0 < 32,
{
    let cleaned = remove_symbols(t);
    match RegNames::name_to_canonical(cleaned.as_str()) {
        Ok(n) => {
            let c = RegNames::register_align(&n);
            match c {
                RegNames::PC => None,
                RegNames::HI => None,
                RegNames::LO => None,
                _ => Some(RegNames::idx_from_enum(&c) as u32),
            }
        },
        Err(_) => None,
    }
}

/// The two big-endian bytes of a halfword value (the low 16 bits of the
/// resolved word).
pub open spec fn half_bytes(v: u32) -> Seq<u8> {
    seq![
        data::byte_of16((v & 0xffff) as u16, 0),
        data::byte_of16((v & 0xffff) as u16, 1),
    ]
}

/// The byte stream a data directive leaves behind, given the stream laid out
/// so far: `cur` extended by the directive's bytes, or `None` when the line
/// cannot be parsed.  This is the layout table of the data segment:
/// `.align` pads the partial word, `.space` reserves zero bytes, `.word`,
/// `.halfword` and `.byte` write a resolved value most significant byte
/// first, `.ascii` writes the quoted characters and `.asciiz` adds a
/// trailing zero byte, and the two floating-point directives are recognized
/// but lay out nothing.  A directive that would push the byte cursor past
/// the segment cap (a machine limit well below the 32-bit address space)
/// also fails.
pub open spec fn data_directive_bytes(
    vars: Seq<(Seq<char>, i32)>,
    labels: Seq<(Seq<char>, u32)>,
    line: Seq<char>,
    cur: Seq<u8>,
) -> Option<Seq<u8>> {
    let toks = text::tokens_of(text::SepKind::Inst, line);
    if toks.len() == 0 {
        None
    } else {
        let t0 = toks[0];
        if t0 == ".align"@ {
            if toks.len() >= 2 && text::is_i32_lit(toks[1]) && text::i32_lit_val(toks[1]) >= 0 {
                if cur.len() > 0xffff_fff0 {
                    None
                } else {
                    let m = 2 * text::i32_lit_val(toks[1]);
                    if m != 0 && cur.len() % (m as nat) != 0 {
                        Some(cur + data::zero_bytes(((4 - cur.len() % 4) % 4) as nat))
                    } else {
                        Some(cur)
                    }
                }
            } else {
                None
            }
        } else if t0 == ".space"@ {
            if toks.len() >= 2 {
                match resolve_of(vars, labels, toks[1]) {
                    Some(v) => if v >= 0 && cur.len() + v <= 0xffff_fff0 {
                        Some(cur + data::zero_bytes(v as nat))
                    } else {
                        None
                    },
                    None => None,
                }
            } else {
                None
            }
        } else if t0 == ".word"@ {
            if toks.len() >= 2 {
                match resolve_of(vars, labels, toks[1]) {
                    Some(v) => if cur.len() + 4 <= 0xffff_fff0 {
                        Some(cur + data::be_bytes(register::u32_of_i32(v)))
                    } else {
                        None
                    },
                    None => None,
                }
            } else {
                None
            }
        } else if t0 == ".halfword"@ {
            if toks.len() >= 2 {
                match resolve_of(vars, labels, toks[1]) {
                    Some(v) => if cur.len() + 2 <= 0xffff_fff0 {
                        Some(cur + half_bytes(register::u32_of_i32(v)))
                    } else {
                        None
                    },
                    None => None,
                }
            } else {
                None
            }
        } else if t0 == ".byte"@ {
            if toks.len() >= 2 {
                match resolve_of(vars, labels, toks[1]) {
                    Some(v) => if cur.len() + 1 <= 0xffff_fff0 {
                        Some(cur.push((register::u32_of_i32(v) & 0xff) as u8))
                    } else {
                        None
                    },
                    None => None,
                }
            } else {
                None
            }
        } else if t0 == ".ascii"@ {
            match quoted_of(line) {
                Some(content) => if ascii_bytes_of(content).len() <= 0xffff_fff0 && cur.len()
                    + ascii_bytes_of(content).len() <= 0xffff_fff0 {
                    Some(cur + ascii_bytes_of(content))
                } else {
                    None
                },
                None => None,
            }
        } else if t0 == ".asciiz"@ {
            match quoted_of(line) {
                Some(content) => if ascii_bytes_of(content).len() <= 0xffff_fff0 && cur.len()
                    + ascii_bytes_of(content).len() + 1 <= 0xffff_fff0 {
                    Some(cur + ascii_bytes_of(content).push(0u8))
                } else {
                    None
                },
                None => None,
            }
        } else if t0 == ".float"@ || t0 == ".double"@ {
            Some(cur)
        } else {
            None
        }
    }
}

/// What a three-register R-type line `op rd, rs, rt` encodes to.
pub open spec fn encode3_of(funct: u32, toks: Seq<Seq<char>>) -> Option<u32> {
    if toks.len() < 4 {
        None
    } else {
        match (reg_slot_of(toks[1]), reg_slot_of(toks[2]), reg_slot_of(toks[3])) {
            (Some(rd), Some(rs), Some(rt)) => Some(encode_r_of(funct, rs, rt, rd)),
            _ => None,
        }
    }
}

/// What an instruction line encodes to.  The three-register arithmetic and
/// logic instructions and `j` encode their operand fields; every other
/// catalog mnemonic assembles to the stub word 0, whose runtime effect is
/// unspecified; an unrecognized mnemonic fails.
pub open spec fn encode_line_of(
    vars: Seq<(Seq<char>, i32)>,
    labels: Seq<(Seq<char>, u32)>,
    toks: Seq<Seq<char>>,
) -> Option<u32> {
    if toks.len() == 0 {
        None
    } else {
        let name = toks[0];
        if name == "add"@ {
            encode3_of(opcodes::OP_ADD, toks)
        } else if name == "addu"@ {
            encode3_of(opcodes::OP_ADDU, toks)
        } else if name == "sub"@ {
            encode3_of(opcodes::OP_SUB, toks)
        } else if name == "and"@ {
            encode3_of(opcodes::OP_AND, toks)
        } else if name == "or"@ {
            encode3_of(opcodes::OP_OR, toks)
        } else if name == "xor"@ {
            encode3_of(opcodes::OP_XOR, toks)
        } else if name == "nor"@ {
            encode3_of(opcodes::OP_NOR, toks)
        } else if name == "mult"@ {
            encode3_of(opcodes::OP_MULT, toks)
        } else if name == "div"@ {
            encode3_of(opcodes::OP_DIV, toks)
        } else if name == "j"@ {
            if toks.len() < 2 {
                None
            } else {
                match resolve_of(vars, labels, toks[1]) {
                    Some(v) => Some(encode_j_of(opcodes::OP_J, register::u32_of_i32(v))),
                    None => None,
                }
            }
        } else if crate::instruction::mnemonic_opcode(name) == 0 && !(name == "sll"@) {
            None
        } else {
            Some(0u32)
        }
    }
}

/// How many bytes a data directive advances the byte cursor by, from `len`,
/// or `None` when the line cannot be parsed.  Sizes never look values up
/// except for `.space`, whose size must resolve against the symbols declared
/// so far; `.word` and its siblings have fixed sizes, so their values may
/// refer forward to labels the first pass has not reached yet.  A directive
/// that would push the cursor past the segment cap (a machine limit well
/// below the 32-bit address space) fails.
pub open spec fn data_directive_size(
    vars: Seq<(Seq<char>, i32)>,
    labels: Seq<(Seq<char>, u32)>,
    line: Seq<char>,
    len: int,
) -> Option<int> {
    let toks = text::tokens_of(text::SepKind::Inst, line);
    if toks.len() == 0 {
        None
    } else {
        let t0 = toks[0];
        if t0 == ".align"@ {
            if toks.len() >= 2 && text::is_i32_lit(toks[1]) && text::i32_lit_val(toks[1]) >= 0 {
                if len > 0xffff_fff0 {
                    None
                } else {
                    let m = 2 * text::i32_lit_val(toks[1]);
                    if m != 0 && len % m != 0 {
                        Some(len + (4 - len % 4) % 4)
                    } else {
                        Some(len)
                    }
                }
            } else {
                None
            }
        } else if t0 == ".space"@ {
            if toks.len() >= 2 {
                match resolve_of(vars, labels, toks[1]) {
                    Some(v) => if v >= 0 && len + v <= 0xffff_fff0 {
                        Some(len + v)
                    } else {
                        None
                    },
                    None => None,
                }
            } else {
                None
            }
        } else if t0 == ".word"@ {
            if toks.len() >= 2 && len + 4 <= 0xffff_fff0 {
                Some(len + 4)
            } else {
                None
            }
        } else if t0 == ".halfword"@ {
            if toks.len() >= 2 && len + 2 <= 0xffff_fff0 {
                Some(len + 2)
            } else {
                None
            }
        } else if t0 == ".byte"@ {
            if toks.len() >= 2 && len + 1 <= 0xffff_fff0 {
                Some(len + 1)
            } else {
                None
            }
        } else if t0 == ".ascii"@ {
            match quoted_of(line) {
                Some(content) => if ascii_bytes_of(content).len() <= 0xffff_fff0 && len
                    + ascii_bytes_of(content).len() <= 0xffff_fff0 {
                    Some(len + ascii_bytes_of(content).len())
                } else {
                    None
                },
                None => None,
            }
        } else if t0 == ".asciiz"@ {
            match quoted_of(line) {
                Some(content) => if ascii_bytes_of(content).len() <= 0xffff_fff0 && len
                    + ascii_bytes_of(content).len() + 1 <= 0xffff_fff0 {
                    Some(len + ascii_bytes_of(content).len() + 1)
                } else {
                    None
                },
                None => None,
            }
        } else if t0 == ".float"@ || t0 == ".double"@ {
            Some(len)
        } else {
            None
        }
    }
}

/// What one meaningful line does to the first pass's state (phase, byte
/// cursor, declared constants, recorded labels), or `None` when the line
/// cannot be accepted.  A label records its name at the cursor's word index;
/// `main` additionally requires a word-aligned cursor.
pub open spec fn sym_line_model(
    st: (LoadingState, int, Seq<(Seq<char>, i32)>, Seq<(Seq<char>, u32)>),
    line: Seq<char>,
) -> Option<(LoadingState, int, Seq<(Seq<char>, i32)>, Seq<(Seq<char>, u32)>)> {
    if is_label_line(line) {
        let name = line.drop_last();
        if name == "main"@ && st.1 % 4 != 0 {
            None
        } else {
            Some((st.0, st.1, st.2, st.3.push((name, (st.1 / 4) as u32))))
        }
    } else {
        match st.0 {
            LoadingState::Header => if line == ".data"@ {
                Some((LoadingState::Data, st.1, st.2, st.3))
            } else {
                let toks = text::tokens_of(text::SepKind::Assign, line);
                if toks.len() >= 2 && text::is_i32_lit(toks[1]) {
                    Some(
                        (
                            LoadingState::Header,
                            st.1,
                            st.2.push((toks[0], text::i32_lit_val(toks[1]) as i32)),
                            st.3,
                        ),
                    )
                } else {
                    None
                }
            },
            LoadingState::Data => if line == ".text"@ {
                if st.1 > 0xffff_fff0 {
                    None
                } else {
                    Some((LoadingState::Code, st.1 + (4 - st.1 % 4) % 4, st.2, st.3))
                }
            } else {
                match data_directive_size(st.2, st.3, line, st.1) {
                    Some(l) => Some((LoadingState::Data, l, st.2, st.3)),
                    None => None,
                }
            },
            LoadingState::Code => {
                let toks = text::tokens_of(text::SepKind::Inst, line);
                if toks.len() == 0 {
                    None
                } else if toks[0] == ".align"@ {
                    if toks.len() >= 2 && text::is_i32_lit(toks[1]) && text::i32_lit_val(toks[1])
                        >= 0 {
                        Some(st)
                    } else {
                        None
                    }
                } else if st.1 + 4 > 0xffff_fff0 {
                    None
                } else {
                    Some((LoadingState::Code, st.1 + 4, st.2, st.3))
                }
            },
        }
    }
}

/// Folds `sym_line_model` over the meaningful lines.
pub open spec fn sym_lines_model(
    lines: Seq<Seq<char>>,
    st: (LoadingState, int, Seq<(Seq<char>, i32)>, Seq<(Seq<char>, u32)>),
) -> Option<(LoadingState, int, Seq<(Seq<char>, i32)>, Seq<(Seq<char>, u32)>)>
    decreases lines.len(),
{
    if lines.len() == 0 {
        Some(st)
    } else {
        match sym_line_model(st, lines.first()) {
            Some(st2) => sym_lines_model(lines.drop_first(), st2),
            None => None,
        }
    }
}

/// A fold over the lines splits at any cut: folding the first `k` lines and
/// then the rest gives the fold of the whole.
pub proof fn lemma_sym_fold_split(
    lines: Seq<Seq<char>>,
    k: int,
    st: (LoadingState, int, Seq<(Seq<char>, i32)>, Seq<(Seq<char>, u32)>),
)
    requires
        0 <= k <= lines.len(),
    ensures
        sym_lines_model(lines, st) == match sym_lines_model(lines.take(k), st) {
            Some(m) => sym_lines_model(lines.skip(k), m),
            None => None,
        },
    decreases k,
{
    if k == 0 {
        assert(lines.take(0) =~= Seq::<Seq<char>>::empty());
        assert(lines.skip(0) =~= lines);
    } else {
        assert(lines.take(k).first() == lines.first());
        assert(lines.take(k).drop_first() =~= lines.drop_first().take(k - 1));
        assert(lines.skip(k) =~= lines.drop_first().skip(k - 1));
        match sym_line_model(st, lines.first()) {
            Some(st2) => {
                lemma_sym_fold_split(lines.drop_first(), k - 1, st2);
            },
            None => {},
        }
    }
}

/// The first pass's starting state: header phase, cursor at zero, empty
/// tables.
pub open spec fn sym_init() -> (LoadingState, int, Seq<(Seq<char>, i32)>, Seq<(Seq<char>, u32)>) {
    (
        LoadingState::Header,
        0,
        Seq::<(Seq<char>, i32)>::empty(),
        Seq::<(Seq<char>, u32)>::empty(),
    )
}

/// The first pass rejects the source, and the earliest line it rejects is a
/// `main:` label at an unaligned cursor: the defining condition of
/// `InvalidMain`, reported at the point of definition.
pub open spec fn first_failure_is_unaligned_main(lines: Seq<Seq<char>>) -> bool {
    exists|j: int|
        {
            &&& 0 <= j < lines.len()
            &&& #[trigger] sym_lines_model(lines.take(j), sym_init()) is Some
            &&& is_label_line(lines[j])
            &&& lines[j].drop_last() == "main"@
            &&& (sym_lines_model(lines.take(j), sym_init())->0).1 % 4 != 0
        }
}

/// The symbol table a source's meaningful lines resolve to: the declared
/// constants and the labels with their word addresses.
pub open spec fn resolved_symbols(lines: Seq<Seq<char>>) -> Option<
    (Seq<(Seq<char>, i32)>, Seq<(Seq<char>, u32)>),
> {
    match sym_lines_model(lines, sym_init()) {
        Some(st) => Some((st.2, st.3)),
        None => None,
    }
}

/// What one meaningful line does to the loader state (phase, data bytes laid
/// out so far, instruction words encoded so far), or `None` when the line
/// cannot be assembled.  Label lines and header declarations touch no
/// memory; `.data` and `.text` only move the phase forward.
pub open spec fn asm_line_model(
    vars: Seq<(Seq<char>, i32)>,
    labels: Seq<(Seq<char>, u32)>,
    st: (LoadingState, Seq<u8>, Seq<u32>),
    line: Seq<char>,
) -> Option<(LoadingState, Seq<u8>, Seq<u32>)> {
    if is_label_line(line) {
        Some(st)
    } else {
        match st.0 {
            LoadingState::Header => if line == ".data"@ {
                Some((LoadingState::Data, st.1, st.2))
            } else {
                Some(st)
            },
            LoadingState::Data => if line == ".text"@ {
                Some((LoadingState::Code, st.1, st.2))
            } else {
                match data_directive_bytes(vars, labels, line, st.1) {
                    Some(b) => Some((LoadingState::Data, b, st.2)),
                    None => None,
                }
            },
            LoadingState::Code => {
                let toks = text::tokens_of(text::SepKind::Inst, line);
                if toks.len() == 0 {
                    None
                } else if toks[0] == ".align"@ {
                    if toks.len() >= 2 && text::is_i32_lit(toks[1]) && text::i32_lit_val(toks[1])
                        >= 0 {
                        Some(st)
                    } else {
                        None
                    }
                } else {
                    match encode_line_of(vars, labels, toks) {
                        Some(w) => if st.2.len() >= 0x3fff_ffff {
                            None
                        } else {
                            Some((LoadingState::Code, st.1, st.2.push(w)))
                        },
                        None => None,
                    }
                }
            },
        }
    }
}

/// Folds `asm_line_model` over the meaningful lines.
pub open spec fn asm_lines_model(
    vars: Seq<(Seq<char>, i32)>,
    labels: Seq<(Seq<char>, u32)>,
    lines: Seq<Seq<char>>,
    st: (LoadingState, Seq<u8>, Seq<u32>),
) -> Option<(LoadingState, Seq<u8>, Seq<u32>)>
    decreases lines.len(),
{
    if lines.len() == 0 {
        Some(st)
    } else {
        match asm_line_model(vars, labels, st, lines.first()) {
            Some(st2) => asm_lines_model(vars, labels, lines.drop_first(), st2),
            None => None,
        }
    }
}

/// A fold over the lines splits at any cut: folding the first `k` lines and
/// then the rest gives the fold of the whole.
pub proof fn lemma_asm_fold_split(
    vars: Seq<(Seq<char>, i32)>,
    labels: Seq<(Seq<char>, u32)>,
    lines: Seq<Seq<char>>,
    k: int,
    st: (LoadingState, Seq<u8>, Seq<u32>),
)
    requires
        0 <= k <= lines.len(),
    ensures
        asm_lines_model(vars, labels, lines, st) == match asm_lines_model(
            vars,
            labels,
            lines.take(k),
            st,
        ) {
            Some(m) => asm_lines_model(vars, labels, lines.skip(k), m),
            None => None,
        },
    decreases k,
{
    if k == 0 {
        assert(lines.take(0) =~= Seq::<Seq<char>>::empty());
        assert(lines.skip(0) =~= lines);
    } else {
        assert(lines.take(k).first() == lines.first());
        assert(lines.take(k).drop_first() =~= lines.drop_first().take(k - 1));
        assert(lines.skip(k) =~= lines.drop_first().skip(k - 1));
        match asm_line_model(vars, labels, st, lines.first()) {
            Some(st2) => {
                lemma_asm_fold_split(vars, labels, lines.drop_first(), k - 1, st2);
            },
            None => {},
        }
    }
}

/// The program memory a source's meaningful lines assemble to, when every
/// line can be assembled: the data segment's encoded words followed by the
/// encoded instructions.
/// The second pass's starting state: header phase, no bytes, no words.
pub open spec fn asm_init() -> (LoadingState, Seq<u8>, Seq<u32>) {
    (LoadingState::Header, Seq::<u8>::empty(), Seq::<u32>::empty())
}

pub open spec fn assembled_program(
    vars: Seq<(Seq<char>, i32)>,
    labels: Seq<(Seq<char>, u32)>,
    lines: Seq<Seq<char>>,
) -> Option<Seq<u32>> {
    match asm_lines_model(vars, labels, lines, asm_init()) {
        Some(st) => Some(data::data_words(st.1) + st.2),
        None => None,
    }
}

/// The dump of a program: each word in decimal, each on its own line.
pub open spec fn dump_of(ws: Seq<u32>) -> Seq<char>
    decreases ws.len(),
{
    if ws.len() == 0 {
        Seq::empty()
    } else {
        dump_of(ws.drop_last()) + text::u32_dec(ws.last() as int) + seq!['\n']
    }
}

impl MipsInterpreter {
    /// The newline-joined decimal rendering of every encoded word in program
    /// memory, in address order: a stable, diffable serialization.
    pub fn get_program_contents(&self) -> (r: String)
        ensures
            r@ == dump_of(self.program_view()),
    {
        proof {
            reveal_strlit("\n");
        }
        let mut s = String::new();
        let n = self.program.len();
        let mut i: usize = 0;
        while i < n
            invariant
                n == self.program@.len(),
                i <= n,
                s@ == dump_of(self.program@.take(i as int)),
            decreases n - i,
        {
            text::push_u32_dec(&mut s, self.program[i]);
            s.append("\n");
            proof {
                reveal_strlit("\n");
                assert(self.program@.take(i + 1).drop_last() =~= self.program@.take(i as int));
                assert("\n"@ =~= seq!['\n']);
            }
            i += 1;
        }
        proof {
            assert(self.program@.take(n as int) =~= self.program@);
        }
        s
    }
}

impl MipsInterpreter {
    /// Resolves an operand that is not a register, in the designed order of
    /// precedence: declared variable, then label address, then signed
    /// literal.  A name matching both a variable and a label resolves to the
    /// variable.
    pub fn read_val_or_immediate(
        vars: &Vec<(String, i32)>,
        labels: &Vec<(String, u32)>,
        val: &str,
    ) -> (r: Option<i32>)
        ensures
            r == resolve_of(vars.deep_view(), labels.deep_view(), val@),
    {
        if let Some(v) = lookup_var(vars, val) {
            return Some(v);
        }
        if let Some(l) = lookup_label(labels, val) {
            return Some(register::to_i32_bits(l));
        }
        text::parse_i32(val)
    }

    /// Encodes a three-register line `op rd, rs, rt`.
    fn encode_three_reg(funct: u32, toks: &Vec<String>) -> (r: Option<u32>)
        requires
            funct < 64,
        ensures
            r == encode3_of(funct, toks.deep_view()),
    {
        if toks.len() < 4 {
            return None;
        }
        let rd = reg_slot(toks[1].as_str());
        let rs = reg_slot(toks[2].as_str());
        let rt = reg_slot(toks[3].as_str());
        match (rd, rs, rt) {
            (Some(d), Some(s), Some(t)) => Some(funct | (s << 21) | (t << 16) | (d << 11)),
            _ => None,
        }
    }

    /// Encodes one instruction line.
    fn encode_instruction(
        vars: &Vec<(String, i32)>,
        labels: &Vec<(String, u32)>,
        toks: &Vec<String>,
    ) -> (r: Option<u32>)
        requires
            toks.len() > 0,
        ensures
            r == encode_line_of(vars.deep_view(), labels.deep_view(), toks.deep_view()),
    {
        let t0 = toks[0].as_str();
        if text::str_eq(t0, "add") {
            Self::encode_three_reg(opcodes::OP_ADD, toks)
        } else if text::str_eq(t0, "addu") {
            Self::encode_three_reg(opcodes::OP_ADDU, toks)
        } else if text::str_eq(t0, "sub") {
            Self::encode_three_reg(opcodes::OP_SUB, toks)
        } else if text::str_eq(t0, "and") {
            Self::encode_three_reg(opcodes::OP_AND, toks)
        } else if text::str_eq(t0, "or") {
            Self::encode_three_reg(opcodes::OP_OR, toks)
        } else if text::str_eq(t0, "xor") {
            Self::encode_three_reg(opcodes::OP_XOR, toks)
        } else if text::str_eq(t0, "nor") {
            Self::encode_three_reg(opcodes::OP_NOR, toks)
        } else if text::str_eq(t0, "mult") {
            Self::encode_three_reg(opcodes::OP_MULT, toks)
        } else if text::str_eq(t0, "div") {
            Self::encode_three_reg(opcodes::OP_DIV, toks)
        } else if text::str_eq(t0, "j") {
            if toks.len() < 2 {
                return None;
            }
            match Self::read_val_or_immediate(vars, labels, toks[1].as_str()) {
                Some(v) => Some(opcodes::OP_J | (register::to_u32_bits(v) & 0x03ff_ffff)),
                None => None,
            }
        } else if crate::instruction::OPName::from(t0) == 0 && !text::str_eq(t0, "sll") {
            None
        } else {
            Some(0)
        }
    }

    /// Lays one data directive out into the segment.  The write cursor is
    /// capped well below the 32-bit address space; a directive that would
    /// cross the cap is a syntax error.
    fn lay_out_directive(
        seg: &mut data::DataSegment,
        vars: &Vec<(String, i32)>,
        labels: &Vec<(String, u32)>,
        line: &str,
        i: usize,
    ) -> (r: Result<(), MipsError>)
        requires
            old(seg).wf(),
            old(seg).contents().len() <= 0xffff_fff3,
        ensures
            final(seg).wf(),
            final(seg).contents().len() <= 0xffff_fff3,
            r is Ok ==> data_directive_bytes(
                vars.deep_view(),
                labels.deep_view(),
                line@,
                old(seg).contents(),
            ) == Some(final(seg).contents()),
            r is Err ==> r->Err_0 == MipsError::SyntaxError(i) && final(seg).contents() == old(
                seg,
            ).contents(),
            r is Err <==> data_directive_bytes(
                vars.deep_view(),
                labels.deep_view(),
                line@,
                old(seg).contents(),
            ) is None,
    {
        let ghost start = seg.contents();
        let toks = text::tokenize(text::SepKind::Inst, line);
        if toks.len() == 0 {
            return Err(MipsError::SyntaxError(i));
        }
        let t0 = toks[0].as_str();
        proof {
            assert(t0@ == toks.deep_view()[0]);
        }
        if text::str_eq(t0, ".align") {
            if toks.len() < 2 {
                return Err(MipsError::SyntaxError(i));
            }
            proof {
                assert(toks[1]@ == toks.deep_view()[1]);
            }
            let v = match text::parse_i32(toks[1].as_str()) {
                Some(v) => v,
                None => { return Err(MipsError::SyntaxError(i)) },
            };
            if v < 0 {
                return Err(MipsError::SyntaxError(i));
            }
            if seg.byte_len() > 0xffff_fff0 {
                return Err(MipsError::SyntaxError(i));
            }
            let m = 2u64 * (v as u64);
            if m != 0 && (seg.byte_len() as u64) % m != 0 {
                seg.pad_to_word();
            } else {
                proof {
                    assert(start + data::zero_bytes(0) =~= start);
                }
            }
            Ok(())
        } else if text::str_eq(t0, ".space") {
            if toks.len() < 2 {
                return Err(MipsError::SyntaxError(i));
            }
            proof {
                assert(toks[1]@ == toks.deep_view()[1]);
            }
            let v = match Self::read_val_or_immediate(vars, labels, toks[1].as_str()) {
                Some(v) => v,
                None => { return Err(MipsError::SyntaxError(i)) },
            };
            if v < 0 {
                return Err(MipsError::SyntaxError(i));
            }
            let count = v as u64;
            if seg.byte_len() as u64 + count > 0xffff_fff0 {
                return Err(MipsError::SyntaxError(i));
            }
            let mut k: u64 = 0;
            while k < count
                invariant
                    seg.wf(),
                    k <= count,
                    seg.contents().len() + (count - k) <= 0xffff_fff0,
                    seg.contents() =~= start + data::zero_bytes(k as nat),
                decreases count - k,
            {
                seg.push_byte(0);
                k += 1;
                proof {
                    assert(seg.contents() =~= start + data::zero_bytes(k as nat));
                }
            }
            Ok(())
        } else if text::str_eq(t0, ".word") {
            if toks.len() < 2 {
                return Err(MipsError::SyntaxError(i));
            }
            proof {
                assert(toks[1]@ == toks.deep_view()[1]);
            }
            let v = match Self::read_val_or_immediate(vars, labels, toks[1].as_str()) {
                Some(v) => v,
                None => { return Err(MipsError::SyntaxError(i)) },
            };
            if seg.byte_len() + 4 > 0xffff_fff0 {
                return Err(MipsError::SyntaxError(i));
            }
            let w = register::to_u32_bits(v);
            let mut k: usize = 0;
            while k < 4
                invariant
                    seg.wf(),
                    k <= 4,
                    seg.contents().len() + (4 - k) <= 0xffff_fff0,
                    seg.contents() =~= start + data::be_bytes(w).take(k as int),
                decreases 4 - k,
            {
                seg.push_byte(data::get_byte_segment_u32(w, k));
                k += 1;
                proof {
                    assert(seg.contents() =~= start + data::be_bytes(w).take(k as int));
                }
            }
            proof {
                assert(data::be_bytes(w).take(4) =~= data::be_bytes(w));
            }
            Ok(())
        } else if text::str_eq(t0, ".halfword") {
            if toks.len() < 2 {
                return Err(MipsError::SyntaxError(i));
            }
            proof {
                assert(toks[1]@ == toks.deep_view()[1]);
            }
            let v = match Self::read_val_or_immediate(vars, labels, toks[1].as_str()) {
                Some(v) => v,
                None => { return Err(MipsError::SyntaxError(i)) },
            };
            if seg.byte_len() + 2 > 0xffff_fff0 {
                return Err(MipsError::SyntaxError(i));
            }
            let vb = register::to_u32_bits(v);
            proof {
                assert(vb & 0xffff < 0x10000) by (bit_vector);
            }
            let h = (vb & 0xffff) as u16;
            seg.push_byte(data::get_byte_segment_u16(h, 0));
            seg.push_byte(data::get_byte_segment_u16(h, 1));
            proof {
                assert(seg.contents() =~= start + half_bytes(vb));
            }
            Ok(())
        } else if text::str_eq(t0, ".byte") {
            if toks.len() < 2 {
                return Err(MipsError::SyntaxError(i));
            }
            proof {
                assert(toks[1]@ == toks.deep_view()[1]);
            }
            let v = match Self::read_val_or_immediate(vars, labels, toks[1].as_str()) {
                Some(v) => v,
                None => { return Err(MipsError::SyntaxError(i)) },
            };
            if seg.byte_len() + 1 > 0xffff_fff0 {
                return Err(MipsError::SyntaxError(i));
            }
            let vb = register::to_u32_bits(v);
            proof {
                assert(vb & 0xff < 0x100) by (bit_vector);
            }
            seg.push_byte((vb & 0xff) as u8);
            Ok(())
        } else if text::str_eq(t0, ".ascii") {
            let content = match quoted_content(line) {
                Some(c) => c,
                None => { return Err(MipsError::SyntaxError(i)) },
            };
            let bytes = ascii_bytes_exec(content.as_str());
            if bytes.len() > 0xffff_fff0 || seg.byte_len() as u64 + bytes.len() as u64
                > 0xffff_fff0 {
                return Err(MipsError::SyntaxError(i));
            }
            let mut k: usize = 0;
            while k < bytes.len()
                invariant
                    seg.wf(),
                    k <= bytes.len(),
                    seg.contents().len() + (bytes.len() - k) <= 0xffff_fff0,
                    seg.contents() =~= start + bytes@.take(k as int),
                decreases bytes.len() - k,
            {
                seg.push_byte(bytes[k]);
                k += 1;
                proof {
                    assert(seg.contents() =~= start + bytes@.take(k as int));
                }
            }
            proof {
                assert(bytes@.take(bytes@.len() as int) =~= bytes@);
            }
            Ok(())
        } else if text::str_eq(t0, ".asciiz") {
            let content = match quoted_content(line) {
                Some(c) => c,
                None => { return Err(MipsError::SyntaxError(i)) },
            };
            let bytes = ascii_bytes_exec(content.as_str());
            if bytes.len() > 0xffff_fff0 || seg.byte_len() as u64 + bytes.len() as u64 + 1
                > 0xffff_fff0 {
                return Err(MipsError::SyntaxError(i));
            }
            let mut k: usize = 0;
            while k < bytes.len()
                invariant
                    seg.wf(),
                    k <= bytes.len(),
                    seg.contents().len() + (bytes.len() - k) + 1 <= 0xffff_fff0,
                    seg.contents() =~= start + bytes@.take(k as int),
                decreases bytes.len() - k,
            {
                seg.push_byte(bytes[k]);
                k += 1;
                proof {
                    assert(seg.contents() =~= start + bytes@.take(k as int));
                }
            }
            // The terminating NUL of `.asciiz`.
            seg.push_byte(0);
            proof {
                assert(bytes@.take(bytes@.len() as int) =~= bytes@);
                assert(seg.contents() =~= start + bytes@.push(0u8));
            }
            Ok(())
        } else if text::str_eq(t0, ".float") || text::str_eq(t0, ".double") {
            // Floating-point data is out of scope; the directives are
            // recognized and lay out nothing.
            Ok(())
        } else {
            Err(MipsError::SyntaxError(i))
        }
    }

    /// The first pass: walks the lines, tracks the byte cursor, collects the
    /// header's constant declarations, and records every label at its word
    /// address, so that the second pass can resolve forward references.
    /// `main` must be defined at a word-aligned cursor.
    #[verifier::loop_isolation(false)]
    #[verifier::rlimit(80)]
    fn collect_symbols(lines: &Vec<String>) -> (r: Result<
        (Vec<(String, i32)>, Vec<(String, u32)>),
        MipsError,
    >)
        ensures
            ({
                let lv = lines.deep_view();
                match r {
                    Ok(p) => (assoc_lookup(p.1.deep_view(), "main"@) is Some <==> contains_main_line(
                        lv,
                    )) && resolved_symbols(lv) == Some((p.0.deep_view(), p.1.deep_view())),
                    Err(e) => match e {
                        MipsError::SyntaxError(i) => {
                            &&& i < lv.len()
                            &&& resolved_symbols(lv) is None
                            &&& sym_lines_model(lv.take(i as int), sym_init()) is Some
                            &&& sym_line_model(
                                sym_lines_model(lv.take(i as int), sym_init())->0,
                                lv[i as int],
                            ) is None
                            &&& !is_label_line(lv[i as int])
                        },
                        MipsError::InvalidMain => contains_main_line(lv) && resolved_symbols(lv)
                            is None && first_failure_is_unaligned_main(lv),
                        _ => false,
                    },
                }
            }),
    {
        let ghost lv = lines.deep_view();
        let ghost init = sym_init();
        let mut vars: Vec<(String, i32)> = Vec::new();
        let mut labels: Vec<(String, u32)> = Vec::new();
        let mut state = LoadingState::Header;
        let mut dp: u64 = 0;
        let n = lines.len();
        let mut i: usize = 0;
        proof {
            assert(lv.skip(0) =~= lv);
            assert(lv.take(0) =~= Seq::<Seq<char>>::empty());
            assert(vars.deep_view() =~= init.2);
            assert(labels.deep_view() =~= init.3);
        }
        while i < n
            invariant
                i <= n,
                dp <= 0xffff_fff3,
                (assoc_lookup(labels.deep_view(), "main"@) is Some <==> exists|j: int|
                    0 <= j < i && lv[j] == "main:"@),
                sym_lines_model(lv, init) == sym_lines_model(
                    lv.skip(i as int),
                    (state, dp as int, vars.deep_view(), labels.deep_view()),
                ),
                sym_lines_model(lv.take(i as int), init) == Some(
                    (state, dp as int, vars.deep_view(), labels.deep_view()),
                ),
            decreases n - i,
        {
            let ghost st_in = (state, dp as int, vars.deep_view(), labels.deep_view());
            let line = lines[i].as_str();
            proof {
                assert(lv[i as int] == line@);
                assert(lv.skip(i as int).first() == line@);
                assert(lv.skip(i as int).drop_first() =~= lv.skip(i + 1));
            }
            if let Some(name) = label_line_name(line) {
                let ghost nm = name@;
                proof {
                    lemma_main_line(line@);
                }
                if text::str_eq(name.as_str(), "main") {
                    if dp % 4 != 0 {
                        proof {
                            assert(nm == line@.drop_last());
                            assert(sym_line_model(st_in, lv.skip(i as int).first()) is None);
                            assert(sym_lines_model(lv, init) is None);
                            assert(first_failure_is_unaligned_main(lv)) by {
                                assert(sym_lines_model(lv.take(i as int), sym_init()) is Some);
                            }
                        }
                        return Err(MipsError::InvalidMain);
                    }
                }
                let addr = (dp / 4) as u32;
                let ghost old_dv = labels.deep_view();
                labels.push((name, addr));
                proof {
                    assert(labels.deep_view().last() == (nm, addr));
                    assert(labels.deep_view().drop_last() =~= old_dv);
                    assert(labels.deep_view() =~= old_dv.push((nm, addr)));
                    assert(nm == line@.drop_last());
                }
            } else {
                proof {
                    reveal_strlit("main:");
                    assert("main:"@.len() == 5);
                    lemma_main_line("main:"@);
                    assert(lv[i as int] != "main:"@);
                }
                match state {
                    LoadingState::Header => {
                        if text::str_eq(line, ".data") {
                            state = LoadingState::Data;
                        } else {
                            let toks = text::tokenize(text::SepKind::Assign, line);
                            if toks.len() < 2 {
                                proof {
                                    assert(sym_line_model(st_in, lv.skip(i as int).first()) is None);
                                    assert(sym_lines_model(lv, init) is None);
                                }
                                return Err(MipsError::SyntaxError(i));
                            }
                            proof {
                                assert(toks[0]@ == toks.deep_view()[0]);
                                assert(toks[1]@ == toks.deep_view()[1]);
                            }
                            let v = match text::parse_i32(toks[1].as_str()) {
                                Some(v) => v,
                                None => { return Err(MipsError::SyntaxError(i)) },
                            };
                            let ghost old_vv = vars.deep_view();
                            let name0 = toks[0].clone();
                            let ghost nv = name0@;
                            vars.push((name0, v));
                            proof {
                                assert(vars.deep_view() =~= old_vv.push((nv, v)));
                            }
                        }
                    },
                    LoadingState::Data => {
                        if text::str_eq(line, ".text") {
                            if dp > 0xffff_fff0 {
                                proof {
                                    assert(sym_line_model(st_in, lv.skip(i as int).first()) is None);
                                    assert(sym_lines_model(lv, init) is None);
                                }
                                return Err(MipsError::SyntaxError(i));
                            }
                            dp = dp + ((4 - dp % 4) % 4);
                            state = LoadingState::Code;
                        } else {
                            let toks = text::tokenize(text::SepKind::Inst, line);
                            if toks.len() == 0 {
                                proof {
                                    assert(sym_line_model(st_in, lv.skip(i as int).first()) is None);
                                    assert(sym_lines_model(lv, init) is None);
                                }
                                return Err(MipsError::SyntaxError(i));
                            }
                            let t0 = toks[0].as_str();
                            proof {
                                assert(t0@ == toks.deep_view()[0]);
                                if toks.len() >= 2 {
                                    assert(toks[1]@ == toks.deep_view()[1]);
                                }
                            }
                            if text::str_eq(t0, ".align") {
                                if toks.len() < 2 {
                                    proof {
                                        assert(sym_line_model(st_in, lv.skip(i as int).first()) is None);
                                        assert(sym_lines_model(lv, init) is None);
                                    }
                                    return Err(MipsError::SyntaxError(i));
                                }
                                let v = match text::parse_i32(toks[1].as_str()) {
                                    Some(v) => v,
                                    None => { return Err(MipsError::SyntaxError(i)) },
                                };
                                if v < 0 {
                                    proof {
                                        assert(sym_line_model(st_in, lv.skip(i as int).first()) is None);
                                        assert(sym_lines_model(lv, init) is None);
                                    }
                                    return Err(MipsError::SyntaxError(i));
                                }
                                if dp > 0xffff_fff0 {
                                    proof {
                                        assert(sym_line_model(st_in, lv.skip(i as int).first()) is None);
                                        assert(sym_lines_model(lv, init) is None);
                                    }
                                    return Err(MipsError::SyntaxError(i));
                                }
                                let m = 2u64 * (v as u64);
                                if m != 0 && dp % m != 0 {
                                    dp = dp + ((4 - dp % 4) % 4);
                                }
                            } else if text::str_eq(t0, ".space") {
                                if toks.len() < 2 {
                                    proof {
                                        assert(sym_line_model(st_in, lv.skip(i as int).first()) is None);
                                        assert(sym_lines_model(lv, init) is None);
                                    }
                                    return Err(MipsError::SyntaxError(i));
                                }
                                let v = match Self::read_val_or_immediate(
                                    &vars,
                                    &labels,
                                    toks[1].as_str(),
                                ) {
                                    Some(v) => v,
                                    None => { return Err(MipsError::SyntaxError(i)) },
                                };
                                if v < 0 {
                                    proof {
                                        assert(sym_line_model(st_in, lv.skip(i as int).first()) is None);
                                        assert(sym_lines_model(lv, init) is None);
                                    }
                                    return Err(MipsError::SyntaxError(i));
                                }
                                if dp + (v as u64) > 0xffff_fff0 {
                                    proof {
                                        assert(sym_line_model(st_in, lv.skip(i as int).first()) is None);
                                        assert(sym_lines_model(lv, init) is None);
                                    }
                                    return Err(MipsError::SyntaxError(i));
                                }
                                dp = dp + (v as u64);
                            } else if text::str_eq(t0, ".word") {
                                if toks.len() < 2 || dp + 4 > 0xffff_fff0 {
                                    proof {
                                        assert(sym_line_model(st_in, lv.skip(i as int).first()) is None);
                                        assert(sym_lines_model(lv, init) is None);
                                    }
                                    return Err(MipsError::SyntaxError(i));
                                }
                                dp = dp + 4;
                            } else if text::str_eq(t0, ".halfword") {
                                if toks.len() < 2 || dp + 2 > 0xffff_fff0 {
                                    proof {
                                        assert(sym_line_model(st_in, lv.skip(i as int).first()) is None);
                                        assert(sym_lines_model(lv, init) is None);
                                    }
                                    return Err(MipsError::SyntaxError(i));
                                }
                                dp = dp + 2;
                            } else if text::str_eq(t0, ".byte") {
                                if toks.len() < 2 || dp + 1 > 0xffff_fff0 {
                                    proof {
                                        assert(sym_line_model(st_in, lv.skip(i as int).first()) is None);
                                        assert(sym_lines_model(lv, init) is None);
                                    }
                                    return Err(MipsError::SyntaxError(i));
                                }
                                dp = dp + 1;
                            } else if text::str_eq(t0, ".ascii") {
                                let content = match quoted_content(line) {
                                    Some(c) => c,
                                    None => { return Err(MipsError::SyntaxError(i)) },
                                };
                                let bytes = ascii_bytes_exec(content.as_str());
                                if bytes.len() as u64 > 0xffff_fff0 || dp + (bytes.len() as u64)
                                    > 0xffff_fff0 {
                                    proof {
                                        assert(sym_line_model(st_in, lv.skip(i as int).first()) is None);
                                        assert(sym_lines_model(lv, init) is None);
                                    }
                                    return Err(MipsError::SyntaxError(i));
                                }
                                dp = dp + (bytes.len() as u64);
                            } else if text::str_eq(t0, ".asciiz") {
                                let content = match quoted_content(line) {
                                    Some(c) => c,
                                    None => { return Err(MipsError::SyntaxError(i)) },
                                };
                                let bytes = ascii_bytes_exec(content.as_str());
                                if bytes.len() as u64 > 0xffff_fff0 || dp + (bytes.len() as u64)
                                    + 1 > 0xffff_fff0 {
                                    proof {
                                        assert(sym_line_model(st_in, lv.skip(i as int).first()) is None);
                                        assert(sym_lines_model(lv, init) is None);
                                    }
                                    return Err(MipsError::SyntaxError(i));
                                }
                                dp = dp + (bytes.len() as u64) + 1;
                            } else if text::str_eq(t0, ".float") || text::str_eq(t0, ".double") {
                                // Floating-point data is out of scope.
                            } else {
                                proof {
                                    assert(sym_line_model(st_in, lv.skip(i as int).first()) is None);
                                    assert(sym_lines_model(lv, init) is None);
                                }
                                return Err(MipsError::SyntaxError(i));
                            }
                        }
                    },
                    LoadingState::Code => {
                        let toks = text::tokenize(text::SepKind::Inst, line);
                        if toks.len() == 0 {
                            proof {
                                assert(sym_line_model(st_in, lv.skip(i as int).first()) is None);
                                assert(sym_lines_model(lv, init) is None);
                            }
                            return Err(MipsError::SyntaxError(i));
                        }
                        let t0 = toks[0].as_str();
                        proof {
                            assert(t0@ == toks.deep_view()[0]);
                            if toks.len() >= 2 {
                                assert(toks[1]@ == toks.deep_view()[1]);
                            }
                        }
                        if text::str_eq(t0, ".align") {
                            if toks.len() < 2 {
                                proof {
                                    assert(sym_line_model(st_in, lv.skip(i as int).first()) is None);
                                    assert(sym_lines_model(lv, init) is None);
                                }
                                return Err(MipsError::SyntaxError(i));
                            }
                            let v = match text::parse_i32(toks[1].as_str()) {
                                Some(v) => v,
                                None => { return Err(MipsError::SyntaxError(i)) },
                            };
                            if v < 0 {
                                proof {
                                    assert(sym_line_model(st_in, lv.skip(i as int).first()) is None);
                                    assert(sym_lines_model(lv, init) is None);
                                }
                                return Err(MipsError::SyntaxError(i));
                            }
                            // The code cursor is always word-aligned, so
                            // alignment never pads here.
                        } else {
                            if dp + 4 > 0xffff_fff0 {
                                proof {
                                    assert(sym_line_model(st_in, lv.skip(i as int).first()) is None);
                                    assert(sym_lines_model(lv, init) is None);
                                }
                                return Err(MipsError::SyntaxError(i));
                            }
                            dp = dp + 4;
                        }
                    },
                }
            }
            proof {
                assert(sym_line_model(st_in, lv.skip(i as int).first()) == Some(
                    (state, dp as int, vars.deep_view(), labels.deep_view()),
                ));
                lemma_sym_fold_split(lv.take(i + 1), i as int, init);
                reveal_with_fuel(sym_lines_model, 3);
                assert(lv.take(i + 1).take(i as int) =~= lv.take(i as int));
                assert(lv.take(i + 1).skip(i as int) =~= seq![lv[i as int]]);
                assert(seq![lv[i as int]].first() == lv[i as int]);
                assert(seq![lv[i as int]].drop_first() =~= Seq::<Seq<char>>::empty());
                assert(sym_lines_model(seq![lv[i as int]], st_in) == Some(
                    (state, dp as int, vars.deep_view(), labels.deep_view()),
                ));
                assert(sym_lines_model(lv.take(i + 1), init) == Some(
                    (state, dp as int, vars.deep_view(), labels.deep_view()),
                ));
            }
            i += 1;
        }
        proof {
            assert(lv.skip(n as int) =~= Seq::<Seq<char>>::empty());
            assert(lv.take(n as int) =~= lv);
        }
        Ok((vars, labels))
    }

    /// Renders program memory from a data segment and the encoded
    /// instructions: the segment's words, partial tail flushed, followed by
    /// the instruction words.
    #[verifier::loop_isolation(false)]
    fn render_program(seg: data::DataSegment, code: Vec<u32>) -> (r: Vec<u32>)
        requires
            seg.wf(),
            seg.contents().len() <= 0xffff_fff3,
            code@.len() <= 0x3fff_ffff,
        ensures
            r@ == data::data_words(seg.contents()) + code@,
            r@.len() <= 0xffff_ffff,
    {
        let ghost final_bytes = seg.contents();
        let mut prog = seg.finish();
        let ghost data_part = prog@;
        let n = code.len();
        let mut k: usize = 0;
        while k < n
            invariant
                k <= n,
                prog@ =~= data_part + code@.take(k as int),
            decreases n - k,
        {
            prog.push(code[k]);
            k += 1;
            proof {
                assert(prog@ =~= data_part + code@.take(k as int));
            }
        }
        proof {
            assert(code@.take(code@.len() as int) =~= code@);
            assert(prog@ =~= data::data_words(final_bytes) + code@);
        }
        prog
    }

    /// The second pass: lays the data segment out byte by byte, encodes the
    /// instructions with the complete label table, and hands back the program
    /// memory together with the first error, if any: on an error at line `i`,
    /// the program holds exactly what the lines before `i` assembled.
    #[verifier::loop_isolation(false)]
    #[verifier::rlimit(80)]
    fn assemble(
        lines: &Vec<String>,
        vars: &Vec<(String, i32)>,
        labels: &Vec<(String, u32)>,
    ) -> (r: (Vec<u32>, Option<MipsError>))
        ensures
            r.0@.len() <= 0xffff_ffff,
            ({
                let lv = lines.deep_view();
                let vv = vars.deep_view();
                let bv = labels.deep_view();
                match r.1 {
                    None => assembled_program(vv, bv, lv) == Some(r.0@),
                    Some(e) => match e {
                        MipsError::SyntaxError(i) => {
                            &&& i < lv.len()
                            &&& assembled_program(vv, bv, lv) is None
                            &&& asm_lines_model(vv, bv, lv.take(i as int), asm_init()) is Some
                            &&& asm_line_model(
                                vv,
                                bv,
                                asm_lines_model(vv, bv, lv.take(i as int), asm_init())->0,
                                lv[i as int],
                            ) is None
                            &&& r.0@ == ({
                                let st = asm_lines_model(vv, bv, lv.take(i as int), asm_init())->0;
                                data::data_words(st.1) + st.2
                            })
                        },
                        _ => false,
                    },
                }
            }),
    {
        let ghost lv = lines.deep_view();
        let ghost vv = vars.deep_view();
        let ghost bv = labels.deep_view();
        let ghost init = asm_init();
        let mut seg = data::DataSegment::new();
        let mut code: Vec<u32> = Vec::new();
        let mut state = LoadingState::Header;
        let n = lines.len();
        let mut i: usize = 0;
        proof {
            assert(lv.skip(0) =~= lv);
            assert(lv.take(0) =~= Seq::<Seq<char>>::empty());
            assert(seg.contents() =~= Seq::<u8>::empty());
            assert(code@ =~= Seq::<u32>::empty());
        }
        while i < n
            invariant
                i <= n,
                seg.wf(),
                seg.contents().len() <= 0xffff_fff3,
                code.len() <= 0x3fff_ffff,
                asm_lines_model(vv, bv, lv, init) == asm_lines_model(
                    vv,
                    bv,
                    lv.skip(i as int),
                    (state, seg.contents(), code@),
                ),
                asm_lines_model(vv, bv, lv.take(i as int), init) == Some(
                    (state, seg.contents(), code@),
                ),
            decreases n - i,
        {
            let ghost st_in = (state, seg.contents(), code@);
            let line = lines[i].as_str();
            proof {
                assert(lv.skip(i as int).first() == line@);
                assert(lv.skip(i as int).drop_first() =~= lv.skip(i + 1));
            }
            if let Some(_name) = label_line_name(line) {
                // Labels were all recorded in the first pass.
            } else {
                match state {
                    LoadingState::Header => {
                        // Constant declarations were collected in the first
                        // pass.
                        if text::str_eq(line, ".data") {
                            state = LoadingState::Data;
                        }
                    },
                    LoadingState::Data => {
                        if text::str_eq(line, ".text") {
                            state = LoadingState::Code;
                        } else {
                            match Self::lay_out_directive(&mut seg, vars, labels, line, i) {
                                Ok(()) => {},
                                Err(e) => {
                                    proof {
                                        assert(asm_line_model(
                                            vv,
                                            bv,
                                            st_in,
                                            lv.skip(i as int).first(),
                                        ) is None);
                                        assert(asm_lines_model(vv, bv, lv, init) is None);
                                    }
                                    return (Self::render_program(seg, code), Some(e));
                                },
                            }
                        }
                    },
                    LoadingState::Code => {
                        let toks = text::tokenize(text::SepKind::Inst, line);
                        if toks.len() == 0 {
                            proof {
                                assert(asm_line_model(vv, bv, st_in, lv.skip(i as int).first())
                                    is None);
                                assert(asm_lines_model(vv, bv, lv, init) is None);
                            }
                            return (Self::render_program(seg, code), Some(
                                MipsError::SyntaxError(i),
                            ));
                        }
                        let t0 = toks[0].as_str();
                        proof {
                            assert(t0@ == toks.deep_view()[0]);
                        }
                        if text::str_eq(t0, ".align") {
                            if toks.len() < 2 {
                                proof {
                                    assert(asm_line_model(vv, bv, st_in, lv.skip(i as int).first())
                                        is None);
                                    assert(asm_lines_model(vv, bv, lv, init) is None);
                                }
                                return (Self::render_program(seg, code), Some(
                                    MipsError::SyntaxError(i),
                                ));
                            }
                            proof {
                                assert(toks[1]@ == toks.deep_view()[1]);
                            }
                            let v = match text::parse_i32(toks[1].as_str()) {
                                Some(v) => v,
                                None => {
                                    proof {
                                        assert(asm_line_model(vv, bv, st_in, lv.skip(i as int).first())
                                            is None);
                                        assert(asm_lines_model(vv, bv, lv, init) is None);
                                    }
                                    return (
                                        Self::render_program(seg, code),
                                        Some(MipsError::SyntaxError(i)),
                                    )
                                },
                            };
                            if v < 0 {
                                proof {
                                    assert(asm_line_model(vv, bv, st_in, lv.skip(i as int).first())
                                        is None);
                                    assert(asm_lines_model(vv, bv, lv, init) is None);
                                }
                                return (Self::render_program(seg, code), Some(
                                    MipsError::SyntaxError(i),
                                ));
                            }
                            // The code cursor is always word-aligned.
                        } else {
                            let word = match Self::encode_instruction(vars, labels, &toks) {
                                Some(w) => w,
                                None => {
                                    proof {
                                        assert(asm_line_model(vv, bv, st_in, lv.skip(i as int).first())
                                            is None);
                                        assert(asm_lines_model(vv, bv, lv, init) is None);
                                    }
                                    return (
                                        Self::render_program(seg, code),
                                        Some(MipsError::SyntaxError(i)),
                                    )
                                },
                            };
                            if code.len() >= 0x3fff_ffff {
                                proof {
                                    assert(asm_line_model(vv, bv, st_in, lv.skip(i as int).first())
                                        is None);
                                    assert(asm_lines_model(vv, bv, lv, init) is None);
                                }
                                return (Self::render_program(seg, code), Some(
                                    MipsError::SyntaxError(i),
                                ));
                            }
                            let ghost old_code = code@;
                            code.push(word);
                            proof {
                                assert(code@ =~= old_code.push(word));
                            }
                        }
                    },
                }
            }
            proof {
                assert(asm_line_model(vv, bv, st_in, lv.skip(i as int).first()) == Some(
                    (state, seg.contents(), code@),
                ));
                lemma_asm_fold_split(vv, bv, lv.take(i + 1), i as int, init);
                reveal_with_fuel(asm_lines_model, 3);
                assert(lv.take(i + 1).take(i as int) =~= lv.take(i as int));
                assert(lv.take(i + 1).skip(i as int) =~= seq![lv[i as int]]);
                assert(seq![lv[i as int]].first() == lv[i as int]);
                assert(seq![lv[i as int]].drop_first() =~= Seq::<Seq<char>>::empty());
                assert(asm_lines_model(vv, bv, seq![lv[i as int]], st_in) == Some(
                    (state, seg.contents(), code@),
                ));
                assert(asm_lines_model(vv, bv, lv.take(i + 1), init) == Some(
                    (state, seg.contents(), code@),
                ));
            }
            i += 1;
        }
        proof {
            assert(lv.skip(n as int) =~= Seq::<Seq<char>>::empty());
            assert(lv.take(n as int) =~= lv);
        }
        (Self::render_program(seg, code), None)
    }

    /// Loads a program from source text: resets the machine, splits the text
    /// into meaningful lines, resolves symbols in a first pass, assembles in
    /// a second pass, and finally initializes the program counter from the
    /// `main` label.  A program without `main:` fails with `MissingMain`; one
    /// whose `main:` sits at an unaligned byte cursor fails with
    /// `InvalidMain`; a line that cannot be parsed fails with `SyntaxError`
    /// carrying the index of the first failing meaningful line of its pass.
    /// On a second-pass failure, program memory holds exactly what the lines
    /// before the failing one assembled; on a first-pass failure it is empty.
    /// On any failure the program counter is left at zero and execution must
    /// not be attempted.
    pub fn load_program(&mut self, program: &str) -> (r: Result<(), MipsError>)
        requires
            old(self).wf(),
        ensures
            final(self).wf(),
            ({
                let lv = text::meaningful_lines(program@);
                match r {
                    Ok(()) => {
                        &&& contains_main_line(lv)
                        &&& resolved_symbols(lv) == Some(
                            (final(self).vars_view(), final(self).labels_view()),
                        )
                        &&& assoc_lookup(final(self).labels_view(), "main"@) == Some(
                            pc_word(*final(self)),
                        )
                        &&& assembled_program(
                            final(self).vars_view(),
                            final(self).labels_view(),
                            lv,
                        ) == Some(final(self).program_view())
                    },
                    Err(MipsError::MissingMain) => {
                        &&& !contains_main_line(lv)
                        &&& resolved_symbols(lv) == Some(
                            (final(self).vars_view(), final(self).labels_view()),
                        )
                        &&& assoc_lookup(final(self).labels_view(), "main"@) is None
                        &&& assembled_program(
                            final(self).vars_view(),
                            final(self).labels_view(),
                            lv,
                        ) == Some(final(self).program_view())
                        &&& pc_word(*final(self)) == 0
                    },
                    Err(MipsError::InvalidMain) => {
                        &&& contains_main_line(lv)
                        &&& resolved_symbols(lv) is None
                        &&& first_failure_is_unaligned_main(lv)
                        &&& final(self).program_view() =~= Seq::<u32>::empty()
                        &&& pc_word(*final(self)) == 0
                    },
                    Err(MipsError::SyntaxError(i)) => {
                        &&& i < lv.len()
                        &&& pc_word(*final(self)) == 0
                        &&& ({
                            // Either the first pass rejects line i, every
                            // earlier line accepted, and nothing was
                            // assembled...
                            ||| {
                                &&& resolved_symbols(lv) is None
                                &&& sym_lines_model(lv.take(i as int), sym_init()) is Some
                                &&& sym_line_model(
                                    sym_lines_model(lv.take(i as int), sym_init())->0,
                                    lv[i as int],
                                ) is None
                                &&& !is_label_line(lv[i as int])
                                &&& final(self).program_view() =~= Seq::<u32>::empty()
                            }
                            // ...or the symbols resolved, the second pass
                            // rejects line i, every earlier line assembled,
                            // and program memory holds exactly what was
                            // assembled before line i.
                            ||| {
                                &&& resolved_symbols(lv) == Some(
                                    (final(self).vars_view(), final(self).labels_view()),
                                )
                                &&& assembled_program(
                                    final(self).vars_view(),
                                    final(self).labels_view(),
                                    lv,
                                ) is None
                                &&& asm_lines_model(
                                    final(self).vars_view(),
                                    final(self).labels_view(),
                                    lv.take(i as int),
                                    asm_init(),
                                ) is Some
                                &&& asm_line_model(
                                    final(self).vars_view(),
                                    final(self).labels_view(),
                                    asm_lines_model(
                                        final(self).vars_view(),
                                        final(self).labels_view(),
                                        lv.take(i as int),
                                        asm_init(),
                                    )->0,
                                    lv[i as int],
                                ) is None
                                &&& final(self).program_view() == ({
                                    let st = asm_lines_model(
                                        final(self).vars_view(),
                                        final(self).labels_view(),
                                        lv.take(i as int),
                                        asm_init(),
                                    )->0;
                                    data::data_words(st.1) + st.2
                                })
                            }
                        })
                    },
                    _ => false,
                }
            }),
            // A source both passes accept, with a main label, is owed success.
            ({
                let lv = text::meaningful_lines(program@);
                match resolved_symbols(lv) {
                    Some(p) => (contains_main_line(lv) && assembled_program(p.0, p.1, lv)
                        is Some) ==> r is Ok,
                    None => true,
                }
            }),
            regs_u32(*final(self)) =~= Seq::new(32, |i: int| 0u32),
            final(self).hi_reg().value == 0,
            final(self).lo_reg().value == 0,
    {
        self.reset();
        let lines = text::split_meaningful_lines(program);
        let (vars, labels) = match Self::collect_symbols(&lines) {
            Ok(p) => p,
            Err(e) => { return Err(e) },
        };
        self.variables = vars;
        self.labels = labels;
        let (prog, asm_err) = Self::assemble(&lines, &self.variables, &self.labels);
        self.program = prog;
        if let Some(e) = asm_err {
            return Err(e);
        }
        match lookup_label(&self.labels, "main") {
            Some(addr) => {
                self.pc.set_u32(addr);
                proof {
                    register::lemma_u32_i32_round_trip(addr, 0);
                }
                Ok(())
            },
            None => Err(MipsError::MissingMain),
        }
    }
}

} // verus!
