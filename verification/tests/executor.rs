//! Tests of the fetch-decode-execute step and of register display.

use mips_sim::mips_int::MipsError;
use mips_sim::mips_int::MipsInterpreter;
use mips_sim::mips_int::register::RegNames;

#[test]
fn add_updates_rd_and_advances_pc() {
    let src = ".data\n.text\nmain:\nadd $t0, $t1, $t2\n";
    let mut intr = MipsInterpreter::new();
    assert!(intr.load_program(src).is_ok());
    intr.set_register(&RegNames::T1, 3);
    intr.set_register(&RegNames::T2, 4);
    assert_eq!(intr.get_register(&RegNames::PC), 0);
    assert!(intr.process_line().is_ok());
    assert_eq!(intr.get_register(&RegNames::T0), 7);
    assert_eq!(intr.get_register(&RegNames::PC), 1);
    // No further instructions: the next step must fail rather than read out
    // of bounds.
    let r = intr.process_line();
    assert!(matches!(r, Err(MipsError::UnknownInstruction(_))));
}

#[test]
fn add_wraps_on_overflow() {
    let src = ".data\n.text\nmain:\nadd $t0, $t1, $t2\n";
    let mut intr = MipsInterpreter::new();
    assert!(intr.load_program(src).is_ok());
    intr.set_register(&RegNames::T1, i32::MAX);
    intr.set_register(&RegNames::T2, 1);
    assert!(intr.process_line().is_ok());
    assert_eq!(intr.get_register(&RegNames::T0), i32::MIN);
}

#[test]
fn jump_sets_pc_to_resolved_word_index() {
    let src = ".data\n.space 16\n.text\nmain:\nj target\ntarget:\nadd $t0, $t0, $t0\n";
    let mut intr = MipsInterpreter::new();
    assert!(intr.load_program(src).is_ok());
    assert_eq!(intr.get_register(&RegNames::PC), 4);
    assert!(intr.process_line().is_ok());
    assert_eq!(intr.get_register(&RegNames::PC), 5);
    // The jump mutates nothing but the program counter.
    for i in 0..32u32 {
        let name = format!("{}", i);
        let reg = RegNames::str_to_enum(&name);
        assert_eq!(intr.get_register(&reg), 0);
    }
}

#[test]
fn data_word_is_not_an_implemented_instruction() {
    // Word 0 decodes to the shift function code, a catalog entry whose
    // runtime behavior is not implemented: the step reports it and changes
    // nothing.
    let src = ".data\nmain:\n.space 4\n";
    let mut intr = MipsInterpreter::new();
    assert!(intr.load_program(src).is_ok());
    let r = intr.process_line();
    assert!(matches!(r, Err(MipsError::UnknownInstruction(0))));
    assert_eq!(intr.get_register(&RegNames::PC), 0);
}

#[test]
fn registers_reset_on_load() {
    let src = ".data\n.text\nmain:\nadd $t0, $t1, $t2\n";
    let mut intr = MipsInterpreter::new();
    assert!(intr.load_program(src).is_ok());
    intr.set_register(&RegNames::S0, 123);
    assert!(intr.load_program(src).is_ok());
    assert_eq!(intr.get_register(&RegNames::S0), 0);
}

#[test]
fn display_register_formats_label_and_value() {
    let mut intr = MipsInterpreter::new();
    assert_eq!(intr.display_register(&RegNames::T0), "R8/T0: 0");
    intr.set_register(&RegNames::T0, -5);
    assert_eq!(intr.display_register(&RegNames::T0), "R8/T0: -5");
    assert_eq!(intr.display_register(&RegNames::R8), "R8/T0: -5");
    assert_eq!(intr.display_register(&RegNames::PC), "PC: 0");
    assert_eq!(intr.display_register(&RegNames::HI), "HI: 0");
    assert_eq!(intr.display_register(&RegNames::LO), "LO: 0");
    intr.set_register(&RegNames::T1, i32::MIN);
    assert_eq!(intr.display_register(&RegNames::T1), "R9/T1: -2147483648");
}

#[test]
fn display_register_canonicalizes_aliases() {
    let intr = MipsInterpreter::new();
    assert_eq!(intr.display_register(&RegNames::At), "R1/At: 0");
    assert_eq!(intr.display_register(&RegNames::ZERO), "R0/Z: 0");
    assert_eq!(intr.display_register(&RegNames::RA), "R31/RA: 0");
}

#[test]
fn syscall_assembles_and_is_dispatchable() {
    let src = ".data\n.text\nmain:\nsyscall\n";
    let mut intr = MipsInterpreter::new();
    assert!(intr.load_program(src).is_ok());
    // `syscall` assembles to the stub word; stepping it reports an explicit
    // not-yet-implemented result instead of doing something silently.
    let r = intr.process_line();
    assert!(matches!(r, Err(MipsError::UnknownInstruction(_))));
}
