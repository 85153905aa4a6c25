//! Tests of the two-pass loader: data-segment layout, symbol resolution, and
//! the error taxonomy.

use mips_sim::mips_int::register::RegNames;
use mips_sim::mips_int::MipsError;
use mips_sim::mips_int::MipsInterpreter;

#[test]
fn test_space10() {
    let data = ".data\n\
				board:\n\
				.space 10"; // 10 BYTES, so 2.5 lines, round up to 3 lines of 0.
    let mut intr = MipsInterpreter::new();
    let _ = intr.load_program(data);
    let code = intr.get_program_contents();
    let mut count = 0;
    for line in code.lines() {
        assert_eq!(line, "0");
        count += 1;
    }
    assert_eq!(count, 3);
}

#[test]
fn test_space12() {
    let data = ".data\n\
				board:\n\
				.space 12"; // 12 BYTES, so 3 lines
    let mut intr = MipsInterpreter::new();
    let _ = intr.load_program(data);
    let code = intr.get_program_contents();
    let mut count = 0;
    for line in code.lines() {
        assert_eq!(line, "0");
        count += 1;
    }
    assert_eq!(count, 3);
}

#[test]
fn space_every_size_up_to_64_gives_ceil_zero_words() {
    for n in 1..=64usize {
        let src = format!(".data\n.space {}\n", n);
        let mut intr = MipsInterpreter::new();
        let r = intr.load_program(&src);
        assert!(matches!(r, Err(MipsError::MissingMain)));
        let code = intr.get_program_contents();
        let lines: Vec<&str> = code.lines().collect();
        assert_eq!(lines.len(), (n + 3) / 4);
        for line in lines {
            assert_eq!(line, "0");
        }
    }
}

#[test]
fn word_literal_round_trips_through_dump() {
    let mut intr = MipsInterpreter::new();
    let _ = intr.load_program(".data\n.word 1234\n");
    assert_eq!(intr.get_program_contents(), "1234\n");
}

#[test]
fn word_negative_one_fills_all_bits() {
    let mut intr = MipsInterpreter::new();
    let _ = intr.load_program(".data\n.word -1\n");
    assert_eq!(intr.get_program_contents(), "4294967295\n");
}

#[test]
fn missing_main_fails_load() {
    let mut intr = MipsInterpreter::new();
    let r = intr.load_program(".data\n.word 5\n.text\nadd $t0, $t1, $t2\n");
    assert!(matches!(r, Err(MipsError::MissingMain)));
}

#[test]
fn unaligned_main_fails_load() {
    // `main:` lands at byte offset 2, which is not word-aligned.
    let src = ".data\n.byte 1\n.byte 2\nmain:\n.word 7\n";
    let mut intr = MipsInterpreter::new();
    let r = intr.load_program(src);
    assert!(matches!(r, Err(MipsError::InvalidMain)));
}

#[test]
fn aligned_main_sets_pc_to_word_index() {
    let src = ".data\n.space 8\nmain:\n.word 7\n";
    let mut intr = MipsInterpreter::new();
    let r = intr.load_program(src);
    assert!(r.is_ok());
    assert_eq!(intr.get_register(&RegNames::PC), 2);
}

#[test]
fn variable_shadows_label_in_resolution() {
    // `X` is both a header constant and a label; the constant wins.
    let src = "X = 5\n.data\nX:\n.word X\n";
    let mut intr = MipsInterpreter::new();
    let _ = intr.load_program(src);
    assert_eq!(intr.get_program_contents(), "5\n");
}

#[test]
fn word_resolves_forward_label() {
    // `target` is defined after the `.word` that uses it; two-pass
    // resolution still finds its word address (2).
    let src = ".data\n.word target\n.space 4\ntarget:\n.word 1\n";
    let mut intr = MipsInterpreter::new();
    let _ = intr.load_program(src);
    assert_eq!(intr.get_program_contents(), "2\n0\n1\n");
}

#[test]
fn halfword_lays_out_big_endian() {
    let mut intr = MipsInterpreter::new();
    let _ = intr.load_program(".data\n.halfword 258\n");
    // Bytes 1, 2 at the top of the word: 0x01020000.
    assert_eq!(intr.get_program_contents(), "16908288\n");
}

#[test]
fn byte_lays_out_at_cursor() {
    let mut intr = MipsInterpreter::new();
    let _ = intr.load_program(".data\n.byte 255\n");
    assert_eq!(intr.get_program_contents(), "4278190080\n");
}

#[test]
fn align_pads_partial_word() {
    let src = ".data\n.byte 1\n.align 1\n.byte 2\n";
    let mut intr = MipsInterpreter::new();
    let _ = intr.load_program(src);
    // 0x01000000 then 0x02000000.
    assert_eq!(intr.get_program_contents(), "16777216\n33554432\n");
}

#[test]
fn ascii_lays_out_characters_without_terminator() {
    let mut intr = MipsInterpreter::new();
    let _ = intr.load_program(".data\n.ascii \"AB\"\n");
    // 'A' 'B' then zero padding: 0x41420000.
    assert_eq!(intr.get_program_contents(), "1094844416\n");
}

#[test]
fn asciiz_appends_nul_byte() {
    let mut intr = MipsInterpreter::new();
    let _ = intr.load_program(".data\n.asciiz \"A\"\n");
    // 'A' then NUL then padding: 0x41000000, distinguishable from `.ascii`
    // only by the cursor, so add a byte after it.
    assert_eq!(intr.get_program_contents(), "1090519040\n");
    let mut intr2 = MipsInterpreter::new();
    let _ = intr2.load_program(".data\n.asciiz \"A\"\n.byte 3\n");
    // 'A', NUL, then 3: 0x41000300.
    assert_eq!(intr2.get_program_contents(), "1090519808\n");
}

#[test]
fn ascii_newline_escape_collapses() {
    let mut intr = MipsInterpreter::new();
    let _ = intr.load_program(".data\n.ascii \"a\\nb\"\n");
    // 0x61, 0x0a, 0x62: 0x610a6200.
    assert_eq!(intr.get_program_contents(), "1628070400\n");
}

#[test]
fn syntax_error_reports_meaningful_line_index() {
    // Comments and blank lines do not count toward the reported index.
    let src = ".data\n# a comment\n\n.bogus 1\n";
    let mut intr = MipsInterpreter::new();
    let r = intr.load_program(src);
    assert!(matches!(r, Err(MipsError::SyntaxError(1))));
}

#[test]
fn bad_register_operand_is_a_syntax_error() {
    let src = ".data\n.text\nmain:\nadd $t0, $zz, $t2\n";
    let mut intr = MipsInterpreter::new();
    let r = intr.load_program(src);
    assert!(matches!(r, Err(MipsError::SyntaxError(3))));
}

#[test]
fn unknown_mnemonic_is_a_syntax_error() {
    let src = ".data\n.text\nmain:\nfrobnicate $t0\n";
    let mut intr = MipsInterpreter::new();
    let r = intr.load_program(src);
    assert!(matches!(r, Err(MipsError::SyntaxError(3))));
}

#[test]
fn header_declaration_needs_a_numeric_value() {
    let src = "size = banana\n.data\nmain:\n";
    let mut intr = MipsInterpreter::new();
    let r = intr.load_program(src);
    assert!(matches!(r, Err(MipsError::SyntaxError(0))));
}

#[test]
fn space_size_comes_from_header_constant() {
    let src = "size = 8\n.data\nmain:\n.space size\n";
    let mut intr = MipsInterpreter::new();
    let r = intr.load_program(src);
    assert!(r.is_ok());
    assert_eq!(intr.get_program_contents(), "0\n0\n");
}

#[test]
fn loading_replaces_the_previous_program() {
    let mut intr = MipsInterpreter::new();
    let _ = intr.load_program(".data\n.word 1\n");
    assert_eq!(intr.get_program_contents(), "1\n");
    let _ = intr.load_program(".data\n.word 2\n");
    assert_eq!(intr.get_program_contents(), "2\n");
}

#[test]
fn error_leaves_program_populated_up_to_the_failing_line() {
    // The data segment assembles; the bad instruction on meaningful line 4
    // stops assembly there, leaving the data word in program memory.
    let src = ".data\n.word 7\n.text\nmain:\nfrobnicate $t0\n";
    let mut intr = MipsInterpreter::new();
    let r = intr.load_program(src);
    assert!(matches!(r, Err(MipsError::SyntaxError(4))));
    assert_eq!(intr.get_program_contents(), "7\n");
    assert_eq!(intr.get_register(&RegNames::PC), 0);
}

#[test]
fn first_pass_error_leaves_program_empty() {
    // The bogus directive is rejected while symbols are being resolved,
    // before any byte is laid out.
    let src = ".data\n.bogus 1\n.word 7\n";
    let mut intr = MipsInterpreter::new();
    let r = intr.load_program(src);
    assert!(matches!(r, Err(MipsError::SyntaxError(1))));
    assert_eq!(intr.get_program_contents(), "");
}
