//! Tests of the instruction catalog, decode, the register model, and operand
//! resolution.

use mips_sim::instruction;
use mips_sim::instruction::OPName;
use mips_sim::mips_int::data::add_byte_to_line;
use mips_sim::mips_int::data::get_byte_segment_u16;
use mips_sim::mips_int::data::get_byte_segment_u32;
use mips_sim::mips_int::data::load_zero_into_line;
use mips_sim::mips_int::MipsError;
use mips_sim::mips_int::MipsInterpreter;
use mips_sim::mips_int::instruction::Instruction;
use mips_sim::mips_int::instruction::OPName as OpTag;
use mips_sim::mips_int::register::RegNames;
use mips_sim::mips_int::register::Register;
use mips_sim::mips_int::remove_symbols;

#[test]
fn mnemonic_lookup_finds_catalog_entries() {
    assert_eq!(OPName::from("add"), instruction::OP_ADD);
    assert_eq!(OPName::from("addu"), instruction::OP_ADDU);
    assert_eq!(OPName::from("j"), instruction::OP_J);
    assert_eq!(OPName::from("syscall"), instruction::OP_SYSCALL);
    assert_eq!(OPName::from("lw"), instruction::OP_LW);
}

#[test]
fn li_is_aliased_onto_or_immediate() {
    assert_eq!(OPName::from("li"), instruction::OP_ORI);
}

#[test]
fn unrecognized_mnemonic_maps_to_sentinel_zero() {
    assert_eq!(OPName::from("banana"), 0);
    assert_eq!(OPName::from(""), 0);
    // The sentinel collides with the shift-left function code on purpose.
    assert_eq!(OPName::from("sll"), 0);
}

#[test]
fn structured_lookup_ignores_case() {
    assert_eq!(OpTag::from("add"), OpTag::ADD);
    assert_eq!(OpTag::from("ADD"), OpTag::ADD);
    assert_eq!(OpTag::from("Jal"), OpTag::JAL);
    assert_eq!(OpTag::from("li"), OpTag::LI);
    assert_eq!(OpTag::from("banana"), OpTag::VOID);
}

#[test]
fn blank_instruction_has_void_tag_and_zero_fields() {
    let i = Instruction::new();
    assert_eq!(i.op, OpTag::VOID);
    assert_eq!(i.rs, RegNames::ZERO);
    assert_eq!(i.rt, RegNames::ZERO);
    assert_eq!(i.rd, RegNames::ZERO);
    assert_eq!(i.imm, 0);
    assert_eq!(i.addr, 0);
}

#[test]
fn decode_uses_primary_field_when_nonzero() {
    let w = instruction::OP_ADDI | (9 << 21) | (8 << 16) | 77;
    assert_eq!(
        MipsInterpreter::get_opcode_from_instruction(w),
        instruction::OP_ADDI
    );
}

#[test]
fn decode_falls_back_to_function_field_for_rtype() {
    // Every R-type function code, packed with live operand fields, must
    // decode through the function field, not the primary field.
    let functs = [
        instruction::OP_ADD,
        instruction::OP_ADDU,
        instruction::OP_SUB,
        instruction::OP_SUBU,
        instruction::OP_AND,
        instruction::OP_OR,
        instruction::OP_XOR,
        instruction::OP_NOR,
        instruction::OP_SLT,
        instruction::OP_SLTU,
        instruction::OP_MULT,
        instruction::OP_MULTU,
        instruction::OP_DIV,
        instruction::OP_DIVU,
        instruction::OP_MFHI,
        instruction::OP_MTHI,
        instruction::OP_MFLO,
        instruction::OP_MTLO,
        instruction::OP_JR,
        instruction::OP_SYSCALL,
    ];
    for f in functs {
        let w = f | (9 << 21) | (10 << 16) | (8 << 11);
        assert_eq!(MipsInterpreter::get_opcode_from_instruction(w), f);
    }
}

#[test]
fn byte_field_helpers_place_and_extract_bytes() {
    assert_eq!(load_zero_into_line(0xaabbccdd, 1), 0xaa00ccdd);
    assert_eq!(load_zero_into_line(0xaabbccdd, 9), 0);
    assert_eq!(get_byte_segment_u32(0xaabbccdd, 0), 0xaa);
    assert_eq!(get_byte_segment_u32(0xaabbccdd, 2), 0xcc);
    assert_eq!(get_byte_segment_u16(0x0102, 0), 1);
    assert_eq!(get_byte_segment_u16(0x0102, 1), 2);
    assert_eq!(add_byte_to_line(0xaabbccdd, 5, 0x11), 0xaa11ccdd);
    assert_eq!(add_byte_to_line(0, 0, 0x7f), 0x7f000000);
}

#[test]
fn register_names_resolve_to_canonical_slots() {
    assert_eq!(RegNames::str_to_enum("T0"), RegNames::T0);
    assert_eq!(RegNames::str_to_enum("t0"), RegNames::T0);
    assert_eq!(RegNames::str_to_enum("R13"), RegNames::R13);
    assert_eq!(RegNames::str_to_enum("31"), RegNames::R31);
    assert_eq!(RegNames::str_to_enum("zero"), RegNames::ZERO);
    assert_eq!(RegNames::str_to_enum("sp"), RegNames::SP);
    assert_eq!(RegNames::str_to_enum("HI"), RegNames::HI);
    // Unrecognized names silently default to the zero register here...
    assert_eq!(RegNames::str_to_enum("bogus"), RegNames::ZERO);
}

#[test]
fn unrecognized_register_name_fails_strict_resolution() {
    // ...but the strict entry point reports them.
    let r = RegNames::name_to_canonical("bogus");
    assert!(matches!(r, Err(MipsError::UnknownRegister)));
    assert!(matches!(RegNames::name_to_canonical("32"), Err(MipsError::UnknownRegister)));
    assert!(matches!(RegNames::name_to_canonical("t0"), Ok(RegNames::T0)));
}

#[test]
fn register_align_maps_aliases_to_slots() {
    assert_eq!(RegNames::register_align(&RegNames::T0), RegNames::R8);
    assert_eq!(RegNames::register_align(&RegNames::T8), RegNames::R24);
    assert_eq!(RegNames::register_align(&RegNames::S0), RegNames::R16);
    assert_eq!(RegNames::register_align(&RegNames::RA), RegNames::R31);
    assert_eq!(RegNames::register_align(&RegNames::R5), RegNames::R5);
    assert_eq!(RegNames::register_align(&RegNames::PC), RegNames::PC);
}

#[test]
fn slot_index_is_total_over_canonical_names() {
    assert_eq!(RegNames::idx_from_enum(&RegNames::R0), 0);
    assert_eq!(RegNames::idx_from_enum(&RegNames::R31), 31);
    assert_eq!(RegNames::idx_from_enum(&RegNames::ZERO), 0);
    // Aliases fall back to slot 0; canonicalize first.
    assert_eq!(RegNames::idx_from_enum(&RegNames::T5), 0);
    assert_eq!(
        RegNames::idx_from_enum(&RegNames::register_align(&RegNames::T5)),
        13
    );
}

#[test]
fn fresh_register_displays_its_label_and_zero() {
    let r = Register::new(RegNames::R8);
    assert_eq!(r.value, 0);
    assert_eq!(r.display_string(), "R8/T0: 0");
    assert_eq!(RegNames::to_str(&RegNames::HI), "HI");
}

#[test]
fn remove_symbols_strips_dollar_and_comma() {
    assert_eq!(remove_symbols("$t0,"), "t0");
    assert_eq!(remove_symbols("$t0"), "t0");
    assert_eq!(remove_symbols("t0,"), "t0");
    assert_eq!(remove_symbols("t0"), "t0");
    assert_eq!(remove_symbols(""), "");
    assert_eq!(remove_symbols("$"), "");
}

#[test]
fn operand_resolution_prefers_variables_then_labels_then_literals() {
    let vars = vec![(String::from("x"), 7i32)];
    let labels = vec![(String::from("x"), 3u32), (String::from("y"), 4u32)];
    assert_eq!(MipsInterpreter::read_val_or_immediate(&vars, &labels, "x"), Some(7));
    assert_eq!(MipsInterpreter::read_val_or_immediate(&vars, &labels, "y"), Some(4));
    assert_eq!(MipsInterpreter::read_val_or_immediate(&vars, &labels, "-12"), Some(-12));
    assert_eq!(MipsInterpreter::read_val_or_immediate(&vars, &labels, "z"), None);
    assert_eq!(MipsInterpreter::read_val_or_immediate(&vars, &labels, "2147483648"), None);
    assert_eq!(
        MipsInterpreter::read_val_or_immediate(&vars, &labels, "-2147483648"),
        Some(i32::MIN)
    );
}
