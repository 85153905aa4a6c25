//! A simulator for a MIPS-like 32-bit CPU: a two-pass assembler that turns
//! source text into a sequence of encoded 32-bit instruction words plus a
//! resolved symbol table, and an executor that single-steps the encoded
//! program against a simulated register file.

pub mod instruction;
pub mod mips_int;
pub mod text;
