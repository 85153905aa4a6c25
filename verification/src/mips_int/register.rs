//! The register model: the 32 canonical general-purpose slots, their
//! calling-convention aliases, the distinguished PC/HI/LO registers, and the
//! display formatting contract.

use vstd::prelude::*;

use crate::mips_int::MipsError;
use crate::text;

verus! {

/// Canonical register slots (`R0`..`R31`), their calling-convention aliases,
/// and the distinguished program counter and multiply/divide registers.
#[derive(Copy, Clone, Debug, PartialEq, Eq, Structural)]
pub enum RegNames {
    R0,
    R1,
    R2,
    R3,
    R4,
    R5,
    R6,
    R7,
    R8,
    R9,
    R10,
    R11,
    R12,
    R13,
    R14,
    R15,
    R16,
    R17,
    R18,
    R19,
    R20,
    R21,
    R22,
    R23,
    R24,
    R25,
    R26,
    R27,
    R28,
    R29,
    R30,
    R31,
    /// Alias of R0: hardwired to zero by software convention.
    ZERO,
    /// Alias of R1: reserved for the assembler.
    At,
    /// Aliases of R2..R3: function return values.
    V0,
    V1,
    /// Aliases of R4..R7: function arguments.
    A0,
    A1,
    A2,
    A3,
    /// Aliases of R8..R15: temporaries.
    T0,
    T1,
    T2,
    T3,
    T4,
    T5,
    T6,
    T7,
    /// Aliases of R24..R25: the two out-of-sequence temporaries.
    T8,
    T9,
    /// Aliases of R16..R23: saved registers.
    S0,
    S1,
    S2,
    S3,
    S4,
    S5,
    S6,
    S7,
    /// Aliases of R26..R27: reserved for the kernel.
    K0,
    K1,
    /// Alias of R28: global pointer.
    GP,
    /// Alias of R29: stack pointer.
    SP,
    /// Alias of R30: frame pointer.
    FP,
    /// Alias of R31: return address.
    RA,
    /// Program counter, measured in words.
    PC,
    /// High half of multiply results / remainder of divide.
    HI,
    /// Low half of multiply results / quotient of divide.
    LO,
}

/// The canonical slot for index `i` (0..=31).
pub open spec fn canonical_of(i: int) -> RegNames {
    if i == 0 {
        RegNames::R0
    } else if i == 1 {
        RegNames::R1
    } else if i == 2 {
        RegNames::R2
    } else if i == 3 {
        RegNames::R3
    } else if i == 4 {
        RegNames::R4
    } else if i == 5 {
        RegNames::R5
    } else if i == 6 {
        RegNames::R6
    } else if i == 7 {
        RegNames::R7
    } else if i == 8 {
        RegNames::R8
    } else if i == 9 {
        RegNames::R9
    } else if i == 10 {
        RegNames::R10
    } else if i == 11 {
        RegNames::R11
    } else if i == 12 {
        RegNames::R12
    } else if i == 13 {
        RegNames::R13
    } else if i == 14 {
        RegNames::R14
    } else if i == 15 {
        RegNames::R15
    } else if i == 16 {
        RegNames::R16
    } else if i == 17 {
        RegNames::R17
    } else if i == 18 {
        RegNames::R18
    } else if i == 19 {
        RegNames::R19
    } else if i == 20 {
        RegNames::R20
    } else if i == 21 {
        RegNames::R21
    } else if i == 22 {
        RegNames::R22
    } else if i == 23 {
        RegNames::R23
    } else if i == 24 {
        RegNames::R24
    } else if i == 25 {
        RegNames::R25
    } else if i == 26 {
        RegNames::R26
    } else if i == 27 {
        RegNames::R27
    } else if i == 28 {
        RegNames::R28
    } else if i == 29 {
        RegNames::R29
    } else if i == 30 {
        RegNames::R30
    } else {
        RegNames::R31
    }
}

/// The canonical slot an alias stands for; canonical names and PC/HI/LO map
/// to themselves.
pub open spec fn align_of(n: RegNames) -> RegNames {
    match n {
        RegNames::ZERO => RegNames::R0,
        RegNames::At => RegNames::R1,
        RegNames::V0 => RegNames::R2,
        RegNames::V1 => RegNames::R3,
        RegNames::A0 => RegNames::R4,
        RegNames::A1 => RegNames::R5,
        RegNames::A2 => RegNames::R6,
        RegNames::A3 => RegNames::R7,
        RegNames::T0 => RegNames::R8,
        RegNames::T1 => RegNames::R9,
        RegNames::T2 => RegNames::R10,
        RegNames::T3 => RegNames::R11,
        RegNames::T4 => RegNames::R12,
        RegNames::T5 => RegNames::R13,
        RegNames::T6 => RegNames::R14,
        RegNames::T7 => RegNames::R15,
        RegNames::T8 => RegNames::R24,
        RegNames::T9 => RegNames::R25,
        RegNames::S0 => RegNames::R16,
        RegNames::S1 => RegNames::R17,
        RegNames::S2 => RegNames::R18,
        RegNames::S3 => RegNames::R19,
        RegNames::S4 => RegNames::R20,
        RegNames::S5 => RegNames::R21,
        RegNames::S6 => RegNames::R22,
        RegNames::S7 => RegNames::R23,
        RegNames::K0 => RegNames::R26,
        RegNames::K1 => RegNames::R27,
        RegNames::GP => RegNames::R28,
        RegNames::SP => RegNames::R29,
        RegNames::FP => RegNames::R30,
        RegNames::RA => RegNames::R31,
        _ => n,
    }
}

/// The slot index of a canonical name (`ZERO` included); every other name
/// falls back to 0, so callers canonicalize with `register_align` first.
pub open spec fn index_of(n: RegNames) -> int {
    match n {
        RegNames::R0 => 0,
        RegNames::R1 => 1,
        RegNames::R2 => 2,
        RegNames::R3 => 3,
        RegNames::R4 => 4,
        RegNames::R5 => 5,
        RegNames::R6 => 6,
        RegNames::R7 => 7,
        RegNames::R8 => 8,
        RegNames::R9 => 9,
        RegNames::R10 => 10,
        RegNames::R11 => 11,
        RegNames::R12 => 12,
        RegNames::R13 => 13,
        RegNames::R14 => 14,
        RegNames::R15 => 15,
        RegNames::R16 => 16,
        RegNames::R17 => 17,
        RegNames::R18 => 18,
        RegNames::R19 => 19,
        RegNames::R20 => 20,
        RegNames::R21 => 21,
        RegNames::R22 => 22,
        RegNames::R23 => 23,
        RegNames::R24 => 24,
        RegNames::R25 => 25,
        RegNames::R26 => 26,
        RegNames::R27 => 27,
        RegNames::R28 => 28,
        RegNames::R29 => 29,
        RegNames::R30 => 30,
        RegNames::R31 => 31,
        RegNames::ZERO => 0,
        _ => 0,
    }
}

/// The register a source-text name stands for: a bare slot number, an `R`- or
/// `r`-prefixed slot number, or a calling-convention alias in either case.
/// Unrecognized names resolve to `None`.
pub open spec fn reg_name_parse(s: Seq<char>) -> Option<RegNames> {
    if s.len() > 0 && text::all_digits(s) && text::dec_val(s) < 32 {
        Some(canonical_of(text::dec_val(s)))
    } else if s.len() > 1 && text::lower_u(s.first()) == 'r' as int && text::all_digits(
        s.drop_first(),
    ) && text::dec_val(s.drop_first()) < 32 {
        Some(canonical_of(text::dec_val(s.drop_first())))
    } else if text::eq_ci(s, "zero"@) {
        Some(RegNames::ZERO)
    } else if text::eq_ci(s, "at"@) {
        Some(RegNames::At)
    } else if text::eq_ci(s, "v0"@) {
        Some(RegNames::V0)
    } else if text::eq_ci(s, "v1"@) {
        Some(RegNames::V1)
    } else if text::eq_ci(s, "a0"@) {
        Some(RegNames::A0)
    } else if text::eq_ci(s, "a1"@) {
        Some(RegNames::A1)
    } else if text::eq_ci(s, "a2"@) {
        Some(RegNames::A2)
    } else if text::eq_ci(s, "a3"@) {
        Some(RegNames::A3)
    } else if text::eq_ci(s, "t0"@) {
        Some(RegNames::T0)
    } else if text::eq_ci(s, "t1"@) {
        Some(RegNames::T1)
    } else if text::eq_ci(s, "t2"@) {
        Some(RegNames::T2)
    } else if text::eq_ci(s, "t3"@) {
        Some(RegNames::T3)
    } else if text::eq_ci(s, "t4"@) {
        Some(RegNames::T4)
    } else if text::eq_ci(s, "t5"@) {
        Some(RegNames::T5)
    } else if text::eq_ci(s, "t6"@) {
        Some(RegNames::T6)
    } else if text::eq_ci(s, "t7"@) {
        Some(RegNames::T7)
    } else if text::eq_ci(s, "t8"@) {
        Some(RegNames::T8)
    } else if text::eq_ci(s, "t9"@) {
        Some(RegNames::T9)
    } else if text::eq_ci(s, "s0"@) {
        Some(RegNames::S0)
    } else if text::eq_ci(s, "s1"@) {
        Some(RegNames::S1)
    } else if text::eq_ci(s, "s2"@) {
        Some(RegNames::S2)
    } else if text::eq_ci(s, "s3"@) {
        Some(RegNames::S3)
    } else if text::eq_ci(s, "s4"@) {
        Some(RegNames::S4)
    } else if text::eq_ci(s, "s5"@) {
        Some(RegNames::S5)
    } else if text::eq_ci(s, "s6"@) {
        Some(RegNames::S6)
    } else if text::eq_ci(s, "s7"@) {
        Some(RegNames::S7)
    } else if text::eq_ci(s, "k0"@) {
        Some(RegNames::K0)
    } else if text::eq_ci(s, "k1"@) {
        Some(RegNames::K1)
    } else if text::eq_ci(s, "gp"@) {
        Some(RegNames::GP)
    } else if text::eq_ci(s, "sp"@) {
        Some(RegNames::SP)
    } else if text::eq_ci(s, "fp"@) {
        Some(RegNames::FP)
    } else if text::eq_ci(s, "ra"@) {
        Some(RegNames::RA)
    } else if text::eq_ci(s, "pc"@) {
        Some(RegNames::PC)
    } else if text::eq_ci(s, "hi"@) {
        Some(RegNames::HI)
    } else if text::eq_ci(s, "lo"@) {
        Some(RegNames::LO)
    } else {
        None
    }
}

/// The display label of a register: canonical name and alias, or the bare
/// name for PC/HI/LO.
pub open spec fn to_str_of(n: RegNames) -> Seq<char> {
    match n {
        RegNames::R0 => "R0/Z"@,
        RegNames::R1 => "R1/At"@,
        RegNames::R2 => "R2/V0"@,
        RegNames::R3 => "R3/V1"@,
        RegNames::R4 => "R4/A0"@,
        RegNames::R5 => "R5/A1"@,
        RegNames::R6 => "R6/A2"@,
        RegNames::R7 => "R7/A3"@,
        RegNames::R8 => "R8/T0"@,
        RegNames::R9 => "R9/T1"@,
        RegNames::R10 => "R10/T2"@,
        RegNames::R11 => "R11/T3"@,
        RegNames::R12 => "R12/T4"@,
        RegNames::R13 => "R13/T5"@,
        RegNames::R14 => "R14/T6"@,
        RegNames::R15 => "R15/T7"@,
        RegNames::R16 => "R16/S0"@,
        RegNames::R17 => "R17/S1"@,
        RegNames::R18 => "R18/S2"@,
        RegNames::R19 => "R19/S3"@,
        RegNames::R20 => "R20/S4"@,
        RegNames::R21 => "R21/S5"@,
        RegNames::R22 => "R22/S6"@,
        RegNames::R23 => "R23/S7"@,
        RegNames::R24 => "R24/T8"@,
        RegNames::R25 => "R25/T9"@,
        RegNames::R26 => "R26/K0"@,
        RegNames::R27 => "R27/K1"@,
        RegNames::R28 => "R28/GP"@,
        RegNames::R29 => "R29/SP"@,
        RegNames::R30 => "R30/FP"@,
        RegNames::R31 => "R31/RA"@,
        RegNames::HI => "HI"@,
        RegNames::LO => "LO"@,
        RegNames::PC => "PC"@,
        _ => "[NEED TO CONVERT REGISTER NAME TO R## FIRST]"@,
    }
}

impl RegNames {
    /// Recognizes a register name, failing on anything outside the alias
    /// table rather than silently defaulting.
    pub fn name_to_canonical(s: &str) -> (r: Result<RegNames, MipsError>)
        ensures
            r is Ok <==> reg_name_parse(s@) is Some,
            r is Ok ==> r->Ok_0 == reg_name_parse(s@)->0,
            r is Err ==> r->Err_0 == MipsError::UnknownRegister,
    {
        proof {
            assert(s@.skip(0) =~= s@);
            assert(s@.drop_first() =~= s@.skip(1));
        }
        if let Some(i) = Self::parse_slot_number(s, 0) {
            return Ok(Self::canonical_from_index(i));
        }
        if s.unicode_len() > 1 {
            let c0 = s.get_char(0) as u32;
            if c0 == 82 || c0 == 114 {
                if let Some(i) = Self::parse_slot_number(s, 1) {
                    return Ok(Self::canonical_from_index(i));
                }
            }
        }
        if text::str_eq_ci(s, "zero") {
            Ok(RegNames::ZERO)
        } else if text::str_eq_ci(s, "at") {
            Ok(RegNames::At)
        } else if text::str_eq_ci(s, "v0") {
            Ok(RegNames::V0)
        } else if text::str_eq_ci(s, "v1") {
            Ok(RegNames::V1)
        } else if text::str_eq_ci(s, "a0") {
            Ok(RegNames::A0)
        } else if text::str_eq_ci(s, "a1") {
            Ok(RegNames::A1)
        } else if text::str_eq_ci(s, "a2") {
            Ok(RegNames::A2)
        } else if text::str_eq_ci(s, "a3") {
            Ok(RegNames::A3)
        } else if text::str_eq_ci(s, "t0") {
            Ok(RegNames::T0)
        } else if text::str_eq_ci(s, "t1") {
            Ok(RegNames::T1)
        } else if text::str_eq_ci(s, "t2") {
            Ok(RegNames::T2)
        } else if text::str_eq_ci(s, "t3") {
            Ok(RegNames::T3)
        } else if text::str_eq_ci(s, "t4") {
            Ok(RegNames::T4)
        } else if text::str_eq_ci(s, "t5") {
            Ok(RegNames::T5)
        } else if text::str_eq_ci(s, "t6") {
            Ok(RegNames::T6)
        } else if text::str_eq_ci(s, "t7") {
            Ok(RegNames::T7)
        } else if text::str_eq_ci(s, "t8") {
            Ok(RegNames::T8)
        } else if text::str_eq_ci(s, "t9") {
            Ok(RegNames::T9)
        } else if text::str_eq_ci(s, "s0") {
            Ok(RegNames::S0)
        } else if text::str_eq_ci(s, "s1") {
            Ok(RegNames::S1)
        } else if text::str_eq_ci(s, "s2") {
            Ok(RegNames::S2)
        } else if text::str_eq_ci(s, "s3") {
            Ok(RegNames::S3)
        } else if text::str_eq_ci(s, "s4") {
            Ok(RegNames::S4)
        } else if text::str_eq_ci(s, "s5") {
            Ok(RegNames::S5)
        } else if text::str_eq_ci(s, "s6") {
            Ok(RegNames::S6)
        } else if text::str_eq_ci(s, "s7") {
            Ok(RegNames::S7)
        } else if text::str_eq_ci(s, "k0") {
            Ok(RegNames::K0)
        } else if text::str_eq_ci(s, "k1") {
            Ok(RegNames::K1)
        } else if text::str_eq_ci(s, "gp") {
            Ok(RegNames::GP)
        } else if text::str_eq_ci(s, "sp") {
            Ok(RegNames::SP)
        } else if text::str_eq_ci(s, "fp") {
            Ok(RegNames::FP)
        } else if text::str_eq_ci(s, "ra") {
            Ok(RegNames::RA)
        } else if text::str_eq_ci(s, "pc") {
            Ok(RegNames::PC)
        } else if text::str_eq_ci(s, "hi") {
            Ok(RegNames::HI)
        } else if text::str_eq_ci(s, "lo") {
            Ok(RegNames::LO)
        } else {
            Err(MipsError::UnknownRegister)
        }
    }

    /// Parses `s[from..]` as a slot number below 32, all digits.
    #[verifier::loop_isolation(false)]
    fn parse_slot_number(s: &str, from: usize) -> (r: Option<u32>)
        requires
            from <= 1,
        ensures
            ({
                let d = s@.skip(from as int);
                &&& r is Some <==> (from < s@.len() && text::all_digits(d) && text::dec_val(d)
                    < 32)
                &&& r is Some ==> r->0 as int == text::dec_val(d)
            }),
    {
        let n = s.unicode_len();
        if from >= n {
            return None;
        }
        let ghost d = s@.skip(from as int);
        let mut acc: u32 = 0;
        let mut i = from;
        while i < n
            invariant
                n == s@.len(),
                from <= i <= n,
                from < n,
                d == s@.skip(from as int),
                text::all_digits(d.take(i - from)),
                acc as int == text::dec_val(d.take(i - from)),
                acc < 32,
            decreases n - i,
        {
            let c = s.get_char(i);
            let u = c as u32;
            if u < 48 || u > 57 {
                proof {
                    assert(d[i - from] == s@[i as int]);
                    assert(!text::is_digit(d[i - from]));
                }
                return None;
            }
            acc = acc * 10 + (u - 48);
            proof {
                assert(d.take(i - from + 1).drop_last() =~= d.take(i - from));
                assert(d.take(i - from + 1).last() == s@[i as int]);
            }
            if acc >= 32 {
                proof {
                    if text::all_digits(d) {
                        text::lemma_dec_val_mono(d, i - from + 1);
                    }
                }
                return None;
            }
            i += 1;
        }
        proof {
            assert(d.take(n - from) =~= d);
        }
        Some(acc)
    }

    /// The canonical name for a slot index.
    pub fn canonical_from_index(i: u32) -> (r: RegNames)
        requires
            i < 32,
        ensures
            r == canonical_of(i as int),
    {
        match i {
            0 => RegNames::R0,
            1 => RegNames::R1,
            2 => RegNames::R2,
            3 => RegNames::R3,
            4 => RegNames::R4,
            5 => RegNames::R5,
            6 => RegNames::R6,
            7 => RegNames::R7,
            8 => RegNames::R8,
            9 => RegNames::R9,
            10 => RegNames::R10,
            11 => RegNames::R11,
            12 => RegNames::R12,
            13 => RegNames::R13,
            14 => RegNames::R14,
            15 => RegNames::R15,
            16 => RegNames::R16,
            17 => RegNames::R17,
            18 => RegNames::R18,
            19 => RegNames::R19,
            20 => RegNames::R20,
            21 => RegNames::R21,
            22 => RegNames::R22,
            23 => RegNames::R23,
            24 => RegNames::R24,
            25 => RegNames::R25,
            26 => RegNames::R26,
            27 => RegNames::R27,
            28 => RegNames::R28,
            29 => RegNames::R29,
            30 => RegNames::R30,
            _ => RegNames::R31,
        }
    }

    /// Recognizes a register name, defaulting to `ZERO` for anything outside
    /// the alias table.
    pub fn str_to_enum(s: &str) -> (r: RegNames)
        ensures
            r == match reg_name_parse(s@) {
                Some(n) => n,
                None => RegNames::ZERO,
            },
    {
        match Self::name_to_canonical(s) {
            Ok(n) => n,
            Err(_) => RegNames::ZERO,
        }
    }

    /// The display label of a register.
    pub fn to_str(n: &RegNames) -> (r: String)
        ensures
            r@ == to_str_of(*n),
    {
        match n {
            RegNames::R0 => String::from_str("R0/Z"),
            RegNames::R1 => String::from_str("R1/At"),
            RegNames::R2 => String::from_str("R2/V0"),
            RegNames::R3 => String::from_str("R3/V1"),
            RegNames::R4 => String::from_str("R4/A0"),
            RegNames::R5 => String::from_str("R5/A1"),
            RegNames::R6 => String::from_str("R6/A2"),
            RegNames::R7 => String::from_str("R7/A3"),
            RegNames::R8 => String::from_str("R8/T0"),
            RegNames::R9 => String::from_str("R9/T1"),
            RegNames::R10 => String::from_str("R10/T2"),
            RegNames::R11 => String::from_str("R11/T3"),
            RegNames::R12 => String::from_str("R12/T4"),
            RegNames::R13 => String::from_str("R13/T5"),
            RegNames::R14 => String::from_str("R14/T6"),
            RegNames::R15 => String::from_str("R15/T7"),
            RegNames::R16 => String::from_str("R16/S0"),
            RegNames::R17 => String::from_str("R17/S1"),
            RegNames::R18 => String::from_str("R18/S2"),
            RegNames::R19 => String::from_str("R19/S3"),
            RegNames::R20 => String::from_str("R20/S4"),
            RegNames::R21 => String::from_str("R21/S5"),
            RegNames::R22 => String::from_str("R22/S6"),
            RegNames::R23 => String::from_str("R23/S7"),
            RegNames::R24 => String::from_str("R24/T8"),
            RegNames::R25 => String::from_str("R25/T9"),
            RegNames::R26 => String::from_str("R26/K0"),
            RegNames::R27 => String::from_str("R27/K1"),
            RegNames::R28 => String::from_str("R28/GP"),
            RegNames::R29 => String::from_str("R29/SP"),
            RegNames::R30 => String::from_str("R30/FP"),
            RegNames::R31 => String::from_str("R31/RA"),
            RegNames::HI => String::from_str("HI"),
            RegNames::LO => String::from_str("LO"),
            RegNames::PC => String::from_str("PC"),
            _ => String::from_str("[NEED TO CONVERT REGISTER NAME TO R## FIRST]"),
        }
    }

    /// Maps an alias to its canonical slot; canonical names and PC/HI/LO are
    /// returned unchanged.
    pub fn register_align(n: &RegNames) -> (r: RegNames)
        ensures
            r == align_of(*n),
    {
        match n {
            RegNames::ZERO => RegNames::R0,
            RegNames::At => RegNames::R1,
            RegNames::V0 => RegNames::R2,
            RegNames::V1 => RegNames::R3,
            RegNames::A0 => RegNames::R4,
            RegNames::A1 => RegNames::R5,
            RegNames::A2 => RegNames::R6,
            RegNames::A3 => RegNames::R7,
            RegNames::T0 => RegNames::R8,
            RegNames::T1 => RegNames::R9,
            RegNames::T2 => RegNames::R10,
            RegNames::T3 => RegNames::R11,
            RegNames::T4 => RegNames::R12,
            RegNames::T5 => RegNames::R13,
            RegNames::T6 => RegNames::R14,
            RegNames::T7 => RegNames::R15,
            RegNames::T8 => RegNames::R24,
            RegNames::T9 => RegNames::R25,
            RegNames::S0 => RegNames::R16,
            RegNames::S1 => RegNames::R17,
            RegNames::S2 => RegNames::R18,
            RegNames::S3 => RegNames::R19,
            RegNames::S4 => RegNames::R20,
            RegNames::S5 => RegNames::R21,
            RegNames::S6 => RegNames::R22,
            RegNames::S7 => RegNames::R23,
            RegNames::K0 => RegNames::R26,
            RegNames::K1 => RegNames::R27,
            RegNames::GP => RegNames::R28,
            RegNames::SP => RegNames::R29,
            RegNames::FP => RegNames::R30,
            RegNames::RA => RegNames::R31,
            other => *other,
        }
    }

    /// The slot index of a canonical name; non-canonical names fall back to
    /// slot 0, so canonicalize with `register_align` first.
    pub fn idx_from_enum(n: &RegNames) -> (r: usize)
        ensures
            r as int == index_of(*n),
            r < 32,
    {
        match n {
            RegNames::R0 => 0,
            RegNames::R1 => 1,
            RegNames::R2 => 2,
            RegNames::R3 => 3,
            RegNames::R4 => 4,
            RegNames::R5 => 5,
            RegNames::R6 => 6,
            RegNames::R7 => 7,
            RegNames::R8 => 8,
            RegNames::R9 => 9,
            RegNames::R10 => 10,
            RegNames::R11 => 11,
            RegNames::R12 => 12,
            RegNames::R13 => 13,
            RegNames::R14 => 14,
            RegNames::R15 => 15,
            RegNames::R16 => 16,
            RegNames::R17 => 17,
            RegNames::R18 => 18,
            RegNames::R19 => 19,
            RegNames::R20 => 20,
            RegNames::R21 => 21,
            RegNames::R22 => 22,
            RegNames::R23 => 23,
            RegNames::R24 => 24,
            RegNames::R25 => 25,
            RegNames::R26 => 26,
            RegNames::R27 => 27,
            RegNames::R28 => 28,
            RegNames::R29 => 29,
            RegNames::R30 => 30,
            RegNames::R31 => 31,
            _ => 0,
        }
    }
}

/// One register: its identity and its 32-bit value.  Arithmetic treats the
/// value as two's complement; the executor converts explicitly between the
/// signed and unsigned views, never by reinterpreting memory.
#[derive(Copy, Clone)]
pub struct Register {
    pub value: i32,
    pub name: RegNames,
}

/// The unsigned view of a register value.
pub open spec fn u32_of_i32(v: i32) -> u32 {
    if v >= 0 {
        v as u32
    } else {
        (v + 0x1_0000_0000) as u32
    }
}

/// The signed view of a 32-bit word.
pub open spec fn i32_of_u32(v: u32) -> i32 {
    if v <= 0x7fff_ffff {
        v as i32
    } else {
        (v - 0x1_0000_0000) as i32
    }
}

/// The display line of a register: label, colon, signed value.
pub open spec fn display_of(r: Register) -> Seq<char> {
    to_str_of(r.name) + ": "@ + text::i32_dec(r.value as int)
}

impl Register {
    /// A fresh register: identified, zeroed.
    pub fn new(n: RegNames) -> (r: Register)
        ensures
            r.value == 0,
            r.name == n,
    {
        Register { value: 0, name: n }
    }

    /// Renders `"<label>: <value>"`.
    pub fn display_string(&self) -> (r: String)
        ensures
            r@ == display_of(*self),
    {
        let mut out = RegNames::to_str(&self.name);
        out.append(": ");
        text::push_i32_dec(&mut out, self.value);
        out
    }

    /// The value seen as an unsigned 32-bit word.
    pub fn get_u32(&self) -> (r: u32)
        ensures
            r == u32_of_i32(self.value),
    {
        if self.value >= 0 {
            self.value as u32
        } else {
            ((self.value as i64) + 0x1_0000_0000i64) as u32
        }
    }

    /// Stores an unsigned 32-bit word, reinterpreted as two's complement.
    pub fn set_u32(&mut self, v: u32)
        ensures
            final(self).value == i32_of_u32(v),
            final(self).name == old(self).name,
    {
        if v <= 0x7fff_ffff {
            self.value = v as i32;
        } else {
            self.value = ((v as i64) - 0x1_0000_0000i64) as i32;
        }
    }
}

/// Reinterprets a signed value as its unsigned 32-bit view.
pub fn to_u32_bits(v: i32) -> (r: u32)
    ensures
        r == u32_of_i32(v),
{
    if v >= 0 {
        v as u32
    } else {
        ((v as i64) + 0x1_0000_0000i64) as u32
    }
}

/// Reinterprets a 32-bit word as its signed view.
pub fn to_i32_bits(v: u32) -> (r: i32)
    ensures
        r == i32_of_u32(v),
{
    if v <= 0x7fff_ffff {
        v as i32
    } else {
        ((v as i64) - 0x1_0000_0000i64) as i32
    }
}

/// The signed and unsigned views invert each other.
pub proof fn lemma_u32_i32_round_trip(v: u32, w: i32)
    ensures
        u32_of_i32(i32_of_u32(v)) == v,
        i32_of_u32(u32_of_i32(w)) == w,
{
}

} // verus!
